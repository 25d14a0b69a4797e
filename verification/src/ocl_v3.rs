//! Program generation for a single block of numbered global arrays.
use vstd::prelude::*;
use crate::text::{
    contains_seq, decimal, lemma_contains_appended, lemma_contains_mid, lemma_contains_trans,
    lemma_decimal_injective, push_chars, push_decimal, push_str, string_from_chars,
};

verus! {

/// One kibibyte.
pub const KB_1: usize = 1024;

/// One mebibyte.
pub const MB_1: usize = 1048576;

/// Element count of every global array.
pub const LIST_SIZE: usize = 1048576;

/// Number of global arrays.
pub const TOTAL_GLOBAL_ARRAY: usize = 512;

/// Capacity of every global array.
pub const CAPACITY_GLOBAL_ARRAY: usize = 1048576;

/// Name of the kernel that stores a vector into a global array.
pub const KERNEL_NAME: &'static str = "vector_add";

/// Name of the kernel that copies a global array out.
pub const EXTRACT_KERNEL_NAME: &'static str = "vector_extract";

/// Opening of the store kernel, up to its switch cases.
pub const VECTOR_ADD_HEAD: &'static str = "\n    kernel void vector_add(global int* A, global int* D) {\n\n        // Get the index of the current element\n        int i = get_global_id(0);\n\n        switch (D[i]) {\n        ";

/// Opening of the copy-out kernel, up to its switch cases.
pub const VECTOR_EXTRACT_HEAD: &'static str = "\n    kernel void vector_extract(global int* C, global int* D) {\n\n        // Get the index of the current element\n        int i = get_global_id(0);\n\n        switch (D[i]) {\n        ";

/// Declaration of global array `i`.
pub open spec fn numbered_decl(i: nat, capacity: nat) -> Seq<char> {
    "\n    __global int myNumbers"@ + decimal(i) + seq!['['] + decimal(capacity) + seq![']', ';']
}

/// Store-kernel case for global array `i`.
pub open spec fn numbered_add_case(i: nat) -> Seq<char> {
    "\n            case "@ + decimal(i) + ":\n              myNumbers"@ + decimal(i)
        + "[i] = A[i];\n              break;"@
}

/// Copy-out-kernel case for global array `i`.
pub open spec fn numbered_extract_case(i: nat) -> Seq<char> {
    "\n            case "@ + decimal(i) + ":\n              C[i] = myNumbers"@ + decimal(i)
        + "[i];\n              break;"@
}

/// Declarations of the first `n` arrays.
pub open spec fn numbered_decls(n: nat, capacity: nat) -> Seq<char>
    decreases n,
{
    if n == 0 {
        Seq::empty()
    } else {
        numbered_decls((n - 1) as nat, capacity) + numbered_decl((n - 1) as nat, capacity)
    }
}

/// Store-kernel cases of the first `n` arrays.
pub open spec fn numbered_add_cases(n: nat) -> Seq<char>
    decreases n,
{
    if n == 0 {
        Seq::empty()
    } else {
        numbered_add_cases((n - 1) as nat) + numbered_add_case((n - 1) as nat)
    }
}

/// Copy-out-kernel cases of the first `n` arrays.
pub open spec fn numbered_extract_cases(n: nat) -> Seq<char>
    decreases n,
{
    if n == 0 {
        Seq::empty()
    } else {
        numbered_extract_cases((n - 1) as nat) + numbered_extract_case((n - 1) as nat)
    }
}

/// The program with `arrays` global arrays of `capacity` elements and one store
/// and one copy-out kernel that switch over them.
pub open spec fn numbered_program(arrays: nat, capacity: nat) -> Seq<char> {
    let end_switch = "\n        }"@;
    let end_fn = "\n    }"@;
    "\n        "@ + numbered_decls(arrays, capacity) + "\n    "@ + VECTOR_ADD_HEAD@
        + numbered_add_cases(arrays) + "\n    "@ + end_switch + "\n    "@ + end_fn + "\n    "@
        + VECTOR_EXTRACT_HEAD@ + numbered_extract_cases(arrays) + "\n    "@ + end_switch + "\n    "@
        + end_fn + "\n    "@
}

/// Appends the declaration and both kernel cases of array `i`.
fn push_numbered_array(
    decls: &mut Vec<char>,
    adds: &mut Vec<char>,
    extracts: &mut Vec<char>,
    i: usize,
    capacity: usize,
)
    ensures
        final(decls)@ == old(decls)@ + numbered_decl(i as nat, capacity as nat),
        final(adds)@ == old(adds)@ + numbered_add_case(i as nat),
        final(extracts)@ == old(extracts)@ + numbered_extract_case(i as nat),
{
    push_str(decls, "\n    __global int myNumbers");
    push_decimal(decls, i as u64);
    decls.push('[');
    push_decimal(decls, capacity as u64);
    decls.push(']');
    decls.push(';');
    assert(final(decls)@ =~= old(decls)@ + numbered_decl(i as nat, capacity as nat));
    push_str(adds, "\n            case ");
    push_decimal(adds, i as u64);
    push_str(adds, ":\n              myNumbers");
    push_decimal(adds, i as u64);
    push_str(adds, "[i] = A[i];\n              break;");
    assert(final(adds)@ =~= old(adds)@ + numbered_add_case(i as nat));
    push_str(extracts, "\n            case ");
    push_decimal(extracts, i as u64);
    push_str(extracts, ":\n              C[i] = myNumbers");
    push_decimal(extracts, i as u64);
    push_str(extracts, "[i];\n              break;");
    assert(final(extracts)@ =~= old(extracts)@ + numbered_extract_case(i as nat));
}

/// The OpenCL program with `arrays` global arrays of `capacity` elements and the
/// store and copy-out kernels over them.
pub fn gen_vector_program_source(arrays: usize, capacity: usize) -> (s: String)
    ensures
        s@ == numbered_program(arrays as nat, capacity as nat),
{
    let mut decls: Vec<char> = Vec::new();
    let mut adds: Vec<char> = Vec::new();
    let mut extracts: Vec<char> = Vec::new();
    let mut i: usize = 0;
    while i < arrays
        invariant
            i <= arrays,
            decls@ == numbered_decls(i as nat, capacity as nat),
            adds@ == numbered_add_cases(i as nat),
            extracts@ == numbered_extract_cases(i as nat),
        decreases arrays - i,
    {
        push_numbered_array(&mut decls, &mut adds, &mut extracts, i, capacity);
        i = i + 1;
    }
    let mut out: Vec<char> = Vec::new();
    push_str(&mut out, "\n        ");
    push_chars(&mut out, &decls);
    push_str(&mut out, "\n    ");
    push_str(&mut out, VECTOR_ADD_HEAD);
    push_chars(&mut out, &adds);
    push_str(&mut out, "\n    ");
    push_str(&mut out, "\n        }");
    push_str(&mut out, "\n    ");
    push_str(&mut out, "\n    }");
    push_str(&mut out, "\n    ");
    push_str(&mut out, VECTOR_EXTRACT_HEAD);
    push_chars(&mut out, &extracts);
    push_str(&mut out, "\n    ");
    push_str(&mut out, "\n        }");
    push_str(&mut out, "\n    ");
    push_str(&mut out, "\n    }");
    push_str(&mut out, "\n    ");
    assert(out@ =~= numbered_program(arrays as nat, capacity as nat));
    string_from_chars(&out)
}

/// The numbered program contains its declarations.
proof fn lemma_program_has_decls(arrays: nat, capacity: nat)
    ensures
        contains_seq(numbered_program(arrays, capacity), numbered_decls(arrays, capacity)),
{
    let decls = numbered_decls(arrays, capacity);
    let end_switch = "\n        }"@;
    let end_fn = "\n    }"@;
    let after = "\n    "@ + VECTOR_ADD_HEAD@ + numbered_add_cases(arrays) + "\n    "@ + end_switch
        + "\n    "@ + end_fn + "\n    "@ + VECTOR_EXTRACT_HEAD@ + numbered_extract_cases(arrays)
        + "\n    "@ + end_switch + "\n    "@ + end_fn + "\n    "@;
    lemma_contains_mid("\n        "@, decls, after);
    assert("\n        "@ + decls + after =~= numbered_program(arrays, capacity));
}

/// The numbered program contains its store cases.
proof fn lemma_program_has_add_cases(arrays: nat, capacity: nat)
    ensures
        contains_seq(numbered_program(arrays, capacity), numbered_add_cases(arrays)),
{
    let adds = numbered_add_cases(arrays);
    let end_switch = "\n        }"@;
    let end_fn = "\n    }"@;
    let before = "\n        "@ + numbered_decls(arrays, capacity) + "\n    "@ + VECTOR_ADD_HEAD@;
    let after = "\n    "@ + end_switch + "\n    "@ + end_fn + "\n    "@ + VECTOR_EXTRACT_HEAD@
        + numbered_extract_cases(arrays) + "\n    "@ + end_switch + "\n    "@ + end_fn + "\n    "@;
    lemma_contains_mid(before, adds, after);
    assert(before + adds + after =~= numbered_program(arrays, capacity));
}

/// The numbered program contains its copy-out cases.
proof fn lemma_program_has_extract_cases(arrays: nat, capacity: nat)
    ensures
        contains_seq(numbered_program(arrays, capacity), numbered_extract_cases(arrays)),
{
    let exts = numbered_extract_cases(arrays);
    let end_switch = "\n        }"@;
    let end_fn = "\n    }"@;
    let before = "\n        "@ + numbered_decls(arrays, capacity) + "\n    "@ + VECTOR_ADD_HEAD@
        + numbered_add_cases(arrays) + "\n    "@ + end_switch + "\n    "@ + end_fn + "\n    "@
        + VECTOR_EXTRACT_HEAD@;
    let after = "\n    "@ + end_switch + "\n    "@ + end_fn + "\n    "@;
    lemma_contains_mid(before, exts, after);
    assert(before + exts + after =~= numbered_program(arrays, capacity));
}

/// Array `i` among the first `n` declarations and cases.
proof fn lemma_numbered_parts(n: nat, capacity: nat, i: nat)
    requires
        i < n,
    ensures
        contains_seq(numbered_decls(n, capacity), numbered_decl(i, capacity)),
        contains_seq(numbered_add_cases(n), numbered_add_case(i)),
        contains_seq(numbered_extract_cases(n), numbered_extract_case(i)),
{
    let fd = |k: nat| numbered_decls(k, capacity);
    let gd = |k: nat| numbered_decl(k, capacity);
    assert forall|k: nat| 0 < k <= n implies #[trigger] fd(k) == fd((k - 1) as nat) + gd(
        (k - 1) as nat,
    ) by {}
    lemma_contains_appended(fd, gd, n, i);
    let fa = |k: nat| numbered_add_cases(k);
    let ga = |k: nat| numbered_add_case(k);
    assert forall|k: nat| 0 < k <= n implies #[trigger] fa(k) == fa((k - 1) as nat) + ga(
        (k - 1) as nat,
    ) by {}
    lemma_contains_appended(fa, ga, n, i);
    let fe = |k: nat| numbered_extract_cases(k);
    let ge = |k: nat| numbered_extract_case(k);
    assert forall|k: nat| 0 < k <= n implies #[trigger] fe(k) == fe((k - 1) as nat) + ge(
        (k - 1) as nat,
    ) by {}
    lemma_contains_appended(fe, ge, n, i);
}

/// The texts of the declaration and of the two cases of array `i`.
proof fn lemma_numbered_texts(i: nat, capacity: nat)
    ensures
        numbered_decl(i, capacity) == "\n    __global int myNumbers"@ + decimal(i) + "["@ + decimal(
            capacity,
        ) + "];"@,
        contains_seq(
            numbered_add_case(i),
            "\n            case "@ + decimal(i) + ":\n              myNumbers"@ + decimal(i)
                + "[i] = A[i];"@,
        ),
        contains_seq(
            numbered_extract_case(i),
            "\n            case "@ + decimal(i) + ":\n              C[i] = myNumbers"@ + decimal(i)
                + "[i];"@,
        ),
{
    reveal_strlit("[");
    reveal_strlit("];");
    reveal_strlit("[i] = A[i];");
    reveal_strlit("[i] = A[i];\n              break;");
    reveal_strlit("\n              break;");
    reveal_strlit("[i];");
    reveal_strlit("[i];\n              break;");
    assert(numbered_decl(i, capacity) =~= "\n    __global int myNumbers"@ + decimal(i) + "["@
        + decimal(capacity) + "];"@);
    let add_text = "\n            case "@ + decimal(i) + ":\n              myNumbers"@ + decimal(i)
        + "[i] = A[i];"@;
    lemma_contains_mid(Seq::empty(), add_text, "\n              break;"@);
    assert(Seq::<char>::empty() + add_text + "\n              break;"@ =~= numbered_add_case(i));
    let ext_text = "\n            case "@ + decimal(i) + ":\n              C[i] = myNumbers"@ + decimal(i)
        + "[i];"@;
    lemma_contains_mid(Seq::empty(), ext_text, "\n              break;"@);
    assert(Seq::<char>::empty() + ext_text + "\n              break;"@ =~= numbered_extract_case(i));
}

/// The numbered program holds, for every array `i` below `arrays`, the
/// declaration of `myNumbers` followed by `i` with `capacity` elements, and a
/// store case and a copy-out case both labelled `i` that use that same array;
/// different arrays get different names and labels.
pub proof fn lemma_numbered_program_arrays(arrays: nat, capacity: nat, i: nat)
    requires
        i < arrays,
    ensures
        contains_seq(
            numbered_program(arrays, capacity),
            "\n    __global int myNumbers"@ + decimal(i) + "["@ + decimal(capacity) + "];"@,
        ),
        contains_seq(
            numbered_program(arrays, capacity),
            "\n            case "@ + decimal(i) + ":\n              myNumbers"@ + decimal(i)
                + "[i] = A[i];"@,
        ),
        contains_seq(
            numbered_program(arrays, capacity),
            "\n            case "@ + decimal(i) + ":\n              C[i] = myNumbers"@ + decimal(i)
                + "[i];"@,
        ),
        forall|j: nat| j != i ==> decimal(j) != decimal(i),
{
    assert forall|j: nat| j != i implies decimal(j) != decimal(i) by {
        lemma_decimal_injective(j, i);
    }
    let prog = numbered_program(arrays, capacity);
    lemma_program_has_decls(arrays, capacity);
    lemma_program_has_add_cases(arrays, capacity);
    lemma_program_has_extract_cases(arrays, capacity);
    lemma_numbered_parts(arrays, capacity, i);
    lemma_numbered_texts(i, capacity);
    lemma_contains_trans(prog, numbered_decls(arrays, capacity), numbered_decl(i, capacity));
    lemma_contains_trans(prog, numbered_add_cases(arrays), numbered_add_case(i));
    lemma_contains_trans(
        prog,
        numbered_add_case(i),
        "\n            case "@ + decimal(i) + ":\n              myNumbers"@ + decimal(i) + "[i] = A[i];"@,
    );
    lemma_contains_trans(prog, numbered_extract_cases(arrays), numbered_extract_case(i));
    lemma_contains_trans(
        prog,
        numbered_extract_case(i),
        "\n            case "@ + decimal(i) + ":\n              C[i] = myNumbers"@ + decimal(i) + "[i];"@,
    );
}

} // verus!
