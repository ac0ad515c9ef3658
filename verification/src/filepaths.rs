//! The job-path allocator: the per-job capture file paths as a pure function
//! of the job id and a process-scoped base directory. Paths for distinct ids
//! never collide, and the same id yields byte-identical paths wherever it is
//! computed.

use vstd::prelude::*;
use crate::digits::{dec, lemma_dec_injective, lemma_dec_len, to_decimal};

verus! {

/// Where job `id`'s captured standard output lives under `base`.
pub open spec fn stdout_path(base: Seq<char>, id: nat) -> Seq<char> {
    base + "stdout/"@ + dec(id)
}

/// Where job `id`'s captured standard error lives under `base`.
pub open spec fn stderr_path(base: Seq<char>, id: nat) -> Seq<char> {
    base + "stderr/"@ + dec(id)
}

/// The pair of capture-file paths for one job: standard output first.
pub fn new_job(base: &str, id: usize) -> (r: (String, String))
    ensures
        r.0@ == stdout_path(base@, id as nat),
        r.1@ == stderr_path(base@, id as nat),
{
    let digits = to_decimal(id);
    let out = String::from_str(base).concat("stdout/").concat(digits.as_str());
    let err = String::from_str(base).concat("stderr/").concat(digits.as_str());
    (out, err)
}

/// Appending distinct suffixes to one prefix gives distinct strings.
proof fn lemma_strip_prefix(p: Seq<char>, x: Seq<char>, y: Seq<char>)
    requires
        p + x == p + y,
    ensures
        x == y,
{
    assert(x =~= (p + x).skip(p.len() as int));
    assert(y =~= (p + y).skip(p.len() as int));
}

/// Distinct jobs get distinct capture paths, on both streams.
pub proof fn lemma_paths_distinct(base: Seq<char>, a: nat, b: nat)
    requires
        a != b,
    ensures
        stdout_path(base, a) != stdout_path(base, b),
        stderr_path(base, a) != stderr_path(base, b),
{
    if stdout_path(base, a) == stdout_path(base, b) {
        assert((base + "stdout/"@) + dec(a) =~= stdout_path(base, a));
        assert((base + "stdout/"@) + dec(b) =~= stdout_path(base, b));
        lemma_strip_prefix(base + "stdout/"@, dec(a), dec(b));
        lemma_dec_injective(a, b);
    }
    if stderr_path(base, a) == stderr_path(base, b) {
        assert((base + "stderr/"@) + dec(a) =~= stderr_path(base, a));
        assert((base + "stderr/"@) + dec(b) =~= stderr_path(base, b));
        lemma_strip_prefix(base + "stderr/"@, dec(a), dec(b));
        lemma_dec_injective(a, b);
    }
}

/// A job's two capture paths never coincide either.
pub proof fn lemma_streams_distinct(base: Seq<char>, id: nat)
    ensures
        stdout_path(base, id) != stderr_path(base, id),
{
    reveal_strlit("stdout/");
    reveal_strlit("stderr/");
    lemma_dec_len(id);
    let i = base.len() as int + 3;
    assert(stdout_path(base, id)[i] == 'o');
    assert(stderr_path(base, id)[i] == 'e');
}

} // verus!
