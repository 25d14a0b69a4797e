//! Producer and consumer kernels that move a vector through OpenCL pipes, one
//! pipe per element.
use vstd::prelude::*;
use crate::text::{
    contains_seq, decimal, lemma_contains_appended, lemma_contains_mid, lemma_contains_trans,
    push_chars, push_decimal, push_str, string_from_chars,
};

verus! {

/// Name of the producer kernel.
pub const PRODUCER_KERNEL_NAME: &'static str = "producer";

/// Name of the consumer kernel.
pub const CONSUMER_KERNEL_NAME: &'static str = "consumer";

/// One kibibyte.
pub const KB_1: usize = 1024;

/// Elements per vector.
pub const LIST_SIZE: usize = 1024;

/// Number of pipes.
pub const TOTAL_PIPES: usize = 1024;

/// Packets each pipe holds.
pub const PIPE_MAX_PACKETS: u32 = 8;

/// Opening of the producer kernel.
pub const PRODUCER_HEADER: &'static str = "\n    __kernel void producer(\n        __global int* input,";

/// Opening of the consumer kernel.
pub const CONSUMER_HEADER: &'static str = "\n    __kernel void consumer(\n        __global int* output,";

/// Text of a producer pipe parameter, up to its number.
pub const PRODUCER_PIPE_ARG: &'static str = "\n            __write_only pipe int p";

/// Text of a consumer pipe parameter, up to its number.
pub const CONSUMER_PIPE_ARG: &'static str = "\n            __read_only pipe int p";

/// Text of a producer case between its number and its pipe number.
pub const PRODUCER_CASE_MID: &'static str = ":\n              write_pipe(p";

/// Text of a consumer case between its number and its pipe number.
pub const CONSUMER_CASE_MID: &'static str = ":\n              read_pipe(p";

/// Text of a producer case after its pipe number.
pub const PRODUCER_CASE_END: &'static str = ", &input[i]);\n              break;\n            ";

/// Text of a consumer case after its pipe number.
pub const CONSUMER_CASE_END: &'static str = ", &output[i]);\n              break;\n            ";

/// Body opening of the producer kernel.
pub const PRODUCER_BODY: &'static str = "\n        ) {\n\n        // Get the index of the current element\n        int i = get_global_id(0);\n        // printf(\"global_id %d %d\",  i, input[i]);\n        ";

/// Body opening of the consumer kernel.
pub const CONSUMER_BODY: &'static str = "\n        ) {\n\n        // Get the index of the current element\n        int i = get_global_id(0);\n        // printf(\"global_id %d %d\",  i, input[i]);\n\n        output[i] = -1;\n        ";

/// Parameters for the first `n` pipes, each ending in a comma.
pub open spec fn pipe_args(arg: Seq<char>, n: nat) -> Seq<char>
    decreases n,
{
    if n == 0 {
        Seq::empty()
    } else {
        pipe_args(arg, (n - 1) as nat) + arg + decimal((n - 1) as nat) + seq![',']
    }
}

/// Switch cases for the first `n` pipes.
pub open spec fn pipe_cases(mid: Seq<char>, end: Seq<char>, n: nat) -> Seq<char>
    decreases n,
{
    if n == 0 {
        Seq::empty()
    } else {
        pipe_cases(mid, end, (n - 1) as nat) + "\n            case "@ + decimal((n - 1) as nat) + mid
            + decimal((n - 1) as nat) + end
    }
}

/// A pipe kernel over `n` pipes: the header, the pipe parameters without the
/// last character, the body opening, the switch over the pipes, and the closing.
pub open spec fn pipe_kernel(
    header: Seq<char>,
    arg: Seq<char>,
    mid: Seq<char>,
    end: Seq<char>,
    body: Seq<char>,
    n: nat,
) -> Seq<char> {
    header + ("\n        "@ + pipe_args(arg, n)).drop_last() + body + "\n        switch (i) {\n        "@
        + pipe_cases(mid, end, n) + "\n        }\n    "@ + "\n    }"@
}

/// The producer kernel that writes element `i` of its input into pipe `i`.
pub open spec fn producer_source(pipes: nat) -> Seq<char> {
    pipe_kernel(
        PRODUCER_HEADER@,
        PRODUCER_PIPE_ARG@,
        PRODUCER_CASE_MID@,
        PRODUCER_CASE_END@,
        PRODUCER_BODY@,
        pipes,
    )
}

/// The consumer kernel that reads pipe `i` into element `i` of its output.
pub open spec fn consumer_source(pipes: nat) -> Seq<char> {
    pipe_kernel(
        CONSUMER_HEADER@,
        CONSUMER_PIPE_ARG@,
        CONSUMER_CASE_MID@,
        CONSUMER_CASE_END@,
        CONSUMER_BODY@,
        pipes,
    )
}

/// Builds a pipe kernel over `pipes` pipes from its fixed texts.
fn pipe_kernel_source(
    pipes: usize,
    header: &str,
    arg: &str,
    mid: &str,
    end: &str,
    body: &str,
) -> (s: String)
    ensures
        s@ == pipe_kernel(header@, arg@, mid@, end@, body@, pipes as nat),
{
    let mut args: Vec<char> = Vec::new();
    push_str(&mut args, "\n        ");
    let mut cases: Vec<char> = Vec::new();
    let ghost start = args@;
    proof {
        reveal_strlit("\n        ");
    }
    let mut i: usize = 0;
    while i < pipes
        invariant
            i <= pipes,
            start == "\n        "@,
            args@ == start + pipe_args(arg@, i as nat),
            cases@ == pipe_cases(mid@, end@, i as nat),
        decreases pipes - i,
    {
        push_str(&mut args, arg);
        push_decimal(&mut args, i as u64);
        args.push(',');
        push_str(&mut cases, "\n            case ");
        push_decimal(&mut cases, i as u64);
        push_str(&mut cases, mid);
        push_decimal(&mut cases, i as u64);
        push_str(&mut cases, end);
        i = i + 1;
        proof {
            assert(args@ =~= start + pipe_args(arg@, i as nat));
            assert(cases@ =~= pipe_cases(mid@, end@, i as nat));
        }
    }
    assert(args@.len() > 0);
    args.pop();
    let mut out: Vec<char> = Vec::new();
    push_str(&mut out, header);
    push_chars(&mut out, &args);
    push_str(&mut out, body);
    push_str(&mut out, "\n        switch (i) {\n        ");
    push_chars(&mut out, &cases);
    push_str(&mut out, "\n        }\n    ");
    push_str(&mut out, "\n    }");
    assert(out@ =~= pipe_kernel(header@, arg@, mid@, end@, body@, pipes as nat));
    string_from_chars(&out)
}

/// The producer kernel over `pipes` pipes.
pub fn generate_producer_source(pipes: usize) -> (s: String)
    ensures
        s@ == producer_source(pipes as nat),
{
    pipe_kernel_source(
        pipes,
        PRODUCER_HEADER,
        PRODUCER_PIPE_ARG,
        PRODUCER_CASE_MID,
        PRODUCER_CASE_END,
        PRODUCER_BODY,
    )
}

/// The consumer kernel over `pipes` pipes.
pub fn generate_consumer_source(pipes: usize) -> (s: String)
    ensures
        s@ == consumer_source(pipes as nat),
{
    pipe_kernel_source(
        pipes,
        CONSUMER_HEADER,
        CONSUMER_PIPE_ARG,
        CONSUMER_CASE_MID,
        CONSUMER_CASE_END,
        CONSUMER_BODY,
    )
}

/// A pipe kernel contains its parameter list and its switch cases.
proof fn lemma_kernel_has_parts(
    header: Seq<char>,
    arg: Seq<char>,
    mid: Seq<char>,
    end: Seq<char>,
    body: Seq<char>,
    n: nat,
)
    ensures
        contains_seq(
            pipe_kernel(header, arg, mid, end, body, n),
            ("\n        "@ + pipe_args(arg, n)).drop_last(),
        ),
        contains_seq(pipe_kernel(header, arg, mid, end, body, n), pipe_cases(mid, end, n)),
{
    let args = ("\n        "@ + pipe_args(arg, n)).drop_last();
    let cases = pipe_cases(mid, end, n);
    let sw = "\n        switch (i) {\n        "@;
    let tail = "\n        }\n    "@ + "\n    }"@;
    let kernel = pipe_kernel(header, arg, mid, end, body, n);
    assert(kernel =~= (header + args + body + sw) + cases + tail);
    lemma_contains_mid(header + args + body + sw, cases, tail);
    assert(kernel =~= header + args + (body + sw + cases + tail));
    lemma_contains_mid(header, args, body + sw + cases + tail);
}

/// The cases for `n` pipes contain the case of pipe `k`.
proof fn lemma_cases_part(mid: Seq<char>, end: Seq<char>, n: nat, k: nat)
    requires
        k < n,
    ensures
        contains_seq(pipe_cases(mid, end, n), "\n            case "@ + decimal(k) + mid + decimal(k) + end),
{
    let fc = |j: nat| pipe_cases(mid, end, j);
    let gc = |j: nat| "\n            case "@ + decimal(j) + mid + decimal(j) + end;
    assert forall|j: nat| 0 < j <= n implies #[trigger] fc(j) == fc((j - 1) as nat) + gc(
        (j - 1) as nat,
    ) by {
        assert(fc(j) =~= fc((j - 1) as nat) + gc((j - 1) as nat));
    }
    lemma_contains_appended(fc, gc, n, k);
}

/// The first `n` parameters, each followed by a comma, contain parameter `k`.
proof fn lemma_args_part(arg: Seq<char>, n: nat, k: nat)
    requires
        k < n,
    ensures
        contains_seq(pipe_args(arg, n), arg + decimal(k)),
{
    let fa = |j: nat| pipe_args(arg, j);
    let ga = |j: nat| arg + decimal(j) + seq![','];
    assert forall|j: nat| 0 < j <= n implies #[trigger] fa(j) == fa((j - 1) as nat) + ga(
        (j - 1) as nat,
    ) by {
        assert(fa(j) =~= fa((j - 1) as nat) + ga((j - 1) as nat));
    }
    lemma_contains_appended(fa, ga, n, k);
    lemma_contains_mid(Seq::empty(), arg + decimal(k), seq![',']);
    assert(Seq::<char>::empty() + (arg + decimal(k)) + seq![','] =~= ga(k));
    lemma_contains_trans(pipe_args(arg, n), ga(k), arg + decimal(k));
}

/// The parameter list, its last comma dropped, still contains parameter `k`.
proof fn lemma_param_list_part(arg: Seq<char>, n: nat, k: nat)
    requires
        k < n,
    ensures
        contains_seq(("\n        "@ + pipe_args(arg, n)).drop_last(), arg + decimal(k)),
{
    let last = (n - 1) as nat;
    let args = ("\n        "@ + pipe_args(arg, n)).drop_last();
    let before = "\n        "@ + pipe_args(arg, last);
    assert(pipe_args(arg, n) == pipe_args(arg, last) + arg + decimal(last) + seq![',']);
    assert(args =~= before + (arg + decimal(last)));
    if k == last {
        lemma_contains_mid(before, arg + decimal(last), Seq::empty());
        assert(before + (arg + decimal(last)) + Seq::<char>::empty() =~= args);
    } else {
        lemma_args_part(arg, last, k);
        lemma_contains_mid("\n        "@, pipe_args(arg, last), arg + decimal(last));
        assert("\n        "@ + pipe_args(arg, last) + (arg + decimal(last)) =~= args);
        lemma_contains_trans(args, pipe_args(arg, last), arg + decimal(k));
    }
}

/// A pipe kernel over `n` pipes declares pipe `k` and has a case labelled `k`
/// that uses pipe `k`, for every `k` below `n`.
proof fn lemma_pipe_kernel_parts(
    header: Seq<char>,
    arg: Seq<char>,
    mid: Seq<char>,
    end: Seq<char>,
    body: Seq<char>,
    n: nat,
    k: nat,
)
    requires
        k < n,
    ensures
        contains_seq(
            pipe_kernel(header, arg, mid, end, body, n),
            "\n            case "@ + decimal(k) + mid + decimal(k) + end,
        ),
        contains_seq(pipe_kernel(header, arg, mid, end, body, n), arg + decimal(k)),
{
    let kernel = pipe_kernel(header, arg, mid, end, body, n);
    lemma_kernel_has_parts(header, arg, mid, end, body, n);
    lemma_cases_part(mid, end, n, k);
    lemma_contains_trans(
        kernel,
        pipe_cases(mid, end, n),
        "\n            case "@ + decimal(k) + mid + decimal(k) + end,
    );
    lemma_param_list_part(arg, n, k);
    lemma_contains_trans(kernel, ("\n        "@ + pipe_args(arg, n)).drop_last(), arg + decimal(k));
}

/// A text contains its start and its end.
proof fn lemma_contains_ends(a: Seq<char>, b: Seq<char>)
    ensures
        contains_seq(a + b, a),
        contains_seq(a + b, b),
{
    lemma_contains_mid(Seq::empty(), a, b);
    assert(Seq::<char>::empty() + a + b =~= a + b);
    lemma_contains_mid(a, b, Seq::empty());
    assert(a + b + Seq::<char>::empty() =~= a + b);
}

/// The producer kernel over `pipes` pipes declares pipe `p{k}` and writes
/// element `k` into that same pipe, for every `k` below `pipes`.
pub proof fn lemma_producer_pipes(pipes: nat, k: nat)
    requires
        k < pipes,
    ensures
        contains_seq(
            producer_source(pipes),
            "\n            case "@ + decimal(k) + ":\n              write_pipe(p"@ + decimal(k)
                + ", &input[i]);"@,
        ),
        contains_seq(producer_source(pipes), "__write_only pipe int p"@ + decimal(k)),
{
    lemma_pipe_kernel_parts(
        PRODUCER_HEADER@,
        PRODUCER_PIPE_ARG@,
        PRODUCER_CASE_MID@,
        PRODUCER_CASE_END@,
        PRODUCER_BODY@,
        pipes,
        k,
    );
    reveal_strlit(", &input[i]);\n              break;\n            ");
    reveal_strlit(", &input[i]);");
    reveal_strlit("\n              break;\n            ");
    reveal_strlit("\n            __write_only pipe int p");
    reveal_strlit("__write_only pipe int p");
    reveal_strlit("\n            ");
    assert(PRODUCER_CASE_END@ =~= ", &input[i]);"@ + "\n              break;\n            "@);
    assert(PRODUCER_PIPE_ARG@ =~= "\n            "@ + "__write_only pipe int p"@);
    let case_head = "\n            case "@ + decimal(k) + PRODUCER_CASE_MID@ + decimal(k);
    let case_text = case_head + ", &input[i]);"@;
    let full = case_head + PRODUCER_CASE_END@;
    assert(full =~= case_text + "\n              break;\n            "@);
    lemma_contains_ends(case_text, "\n              break;\n            "@);
    lemma_contains_trans(producer_source(pipes), full, case_text);
    let param = "__write_only pipe int p"@ + decimal(k);
    assert(PRODUCER_PIPE_ARG@ + decimal(k) =~= "\n            "@ + param);
    lemma_contains_ends("\n            "@, param);
    lemma_contains_trans(producer_source(pipes), PRODUCER_PIPE_ARG@ + decimal(k), param);
}

/// The consumer kernel over `pipes` pipes declares pipe `p{k}` and reads
/// element `k` from that same pipe, for every `k` below `pipes`.
pub proof fn lemma_consumer_pipes(pipes: nat, k: nat)
    requires
        k < pipes,
    ensures
        contains_seq(
            consumer_source(pipes),
            "\n            case "@ + decimal(k) + ":\n              read_pipe(p"@ + decimal(k)
                + ", &output[i]);"@,
        ),
        contains_seq(consumer_source(pipes), "__read_only pipe int p"@ + decimal(k)),
{
    lemma_pipe_kernel_parts(
        CONSUMER_HEADER@,
        CONSUMER_PIPE_ARG@,
        CONSUMER_CASE_MID@,
        CONSUMER_CASE_END@,
        CONSUMER_BODY@,
        pipes,
        k,
    );
    reveal_strlit(", &output[i]);\n              break;\n            ");
    reveal_strlit(", &output[i]);");
    reveal_strlit("\n              break;\n            ");
    reveal_strlit("\n            __read_only pipe int p");
    reveal_strlit("__read_only pipe int p");
    reveal_strlit("\n            ");
    assert(CONSUMER_CASE_END@ =~= ", &output[i]);"@ + "\n              break;\n            "@);
    assert(CONSUMER_PIPE_ARG@ =~= "\n            "@ + "__read_only pipe int p"@);
    let case_head = "\n            case "@ + decimal(k) + CONSUMER_CASE_MID@ + decimal(k);
    let case_text = case_head + ", &output[i]);"@;
    let full = case_head + CONSUMER_CASE_END@;
    assert(full =~= case_text + "\n              break;\n            "@);
    lemma_contains_ends(case_text, "\n              break;\n            "@);
    lemma_contains_trans(consumer_source(pipes), full, case_text);
    let param = "__read_only pipe int p"@ + decimal(k);
    assert(CONSUMER_PIPE_ARG@ + decimal(k) =~= "\n            "@ + param);
    lemma_contains_ends("\n            "@, param);
    lemma_contains_trans(consumer_source(pipes), CONSUMER_PIPE_ARG@ + decimal(k), param);
}

} // verus!
