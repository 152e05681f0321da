use vstd::prelude::*;

verus! {

/// The text `.exe`.
pub open spec fn exe_suffix() -> Seq<char> {
    seq!['.', 'e', 'x', 'e']
}

/// Whether `s` ends with `.exe`.
pub open spec fn ends_with_exe(s: Seq<char>) -> bool {
    s.len() >= 4 && s.subrange(s.len() - 4, s.len() as int) == exe_suffix()
}

/// `s` with every trailing `.exe` removed.
pub open spec fn trim_exe(s: Seq<char>) -> Seq<char>
    decreases s.len(),
{
    if ends_with_exe(s) {
        trim_exe(s.subrange(0, s.len() - 4))
    } else {
        s
    }
}

/// The file name under which a ghost process runs: the name with every
/// trailing `.exe` trimmed, then one `.exe` appended, so that `procmon` and
/// `procmon.exe` both give `procmon.exe`.
pub fn ghost_file_name(name: &str) -> (r: String)
    ensures
        r@ == trim_exe(name@) + exe_suffix(),
{
    let n = name.unicode_len();
    let mut end: usize = n;
    assert(name@.subrange(0, n as int) =~= name@);
    while end >= 4 && name.get_char(end - 4) == '.' && name.get_char(end - 3) == 'e'
        && name.get_char(end - 2) == 'x' && name.get_char(end - 1) == 'e'
        invariant
            n == name@.len(),
            end <= n,
            trim_exe(name@.subrange(0, end as int)) == trim_exe(name@),
        decreases end,
    {
        let ghost s = name@.subrange(0, end as int);
        assert(s.subrange(s.len() - 4, s.len() as int) =~= exe_suffix());
        assert(s.subrange(0, s.len() - 4) =~= name@.subrange(0, end - 4));
        end = end - 4;
    }
    proof {
        let s = name@.subrange(0, end as int);
        if ends_with_exe(s) {
            assert(s.subrange(s.len() - 4, s.len() as int)[0] == s[end - 4]);
            assert(s.subrange(s.len() - 4, s.len() as int)[1] == s[end - 3]);
            assert(s.subrange(s.len() - 4, s.len() as int)[2] == s[end - 2]);
            assert(s.subrange(s.len() - 4, s.len() as int)[3] == s[end - 1]);
        }
        assert(name@.subrange(0, n as int) =~= name@);
    }
    let stem = name.substring_char(0, end);
    let mut r = String::new();
    r.append(stem);
    let suffix = ".exe";
    proof {
        reveal_strlit(".exe");
        assert(suffix@ =~= exe_suffix());
    }
    r.append(suffix);
    r
}

/// What `trim_exe` leaves does not end with `.exe`.
proof fn lemma_trimmed_has_no_exe(s: Seq<char>)
    ensures
        !ends_with_exe(trim_exe(s)),
    decreases s.len(),
{
    if ends_with_exe(s) {
        lemma_trimmed_has_no_exe(s.subrange(0, s.len() - 4));
    }
}

/// Forming the ghost file name twice changes nothing: a name that is
/// already a ghost file name is kept as it is.
pub proof fn lemma_ghost_file_name_idempotent(name: Seq<char>)
    ensures
        trim_exe(trim_exe(name) + exe_suffix()) + exe_suffix() == trim_exe(name) + exe_suffix(),
{
    let t = trim_exe(name);
    lemma_trimmed_has_no_exe(name);
    let u = t + exe_suffix();
    assert(u.subrange(u.len() - 4, u.len() as int) =~= exe_suffix());
    assert(u.subrange(0, u.len() - 4) =~= t);
    assert(ends_with_exe(u));
    assert(trim_exe(u) == trim_exe(t));
    assert(trim_exe(t) == t);
}

} // verus!
