use vstd::prelude::*;

verus! {

/// The registry hives an artifact path may start with.
#[derive(PartialEq, Eq, Structural, Clone, Copy, Debug)]
pub enum Hive {
    /// `HKLM\`: `HKEY_LOCAL_MACHINE`, which needs an elevated process.
    LocalMachine,
    /// `HKCU\`: `HKEY_CURRENT_USER`.
    CurrentUser,
}

/// Why a registry path was refused.
#[derive(PartialEq, Eq, Structural, Clone, Copy, Debug)]
pub enum HiveError {
    /// The path starts with neither `HKLM\` nor `HKCU\`.
    UnknownHive,
}

/// The text with which a path names its hive.
pub open spec fn hive_prefix(h: Hive) -> Seq<char> {
    match h {
        Hive::LocalMachine => seq!['H', 'K', 'L', 'M', '\\'],
        Hive::CurrentUser => seq!['H', 'K', 'C', 'U', '\\'],
    }
}

/// `HKLM\` names `HKEY_LOCAL_MACHINE` and `HKCU\` names
/// `HKEY_CURRENT_USER`, each five characters long.
pub proof fn lemma_hive_names()
    ensures
        hive_prefix(Hive::LocalMachine) == seq!['H', 'K', 'L', 'M', '\\'],
        hive_prefix(Hive::CurrentUser) == seq!['H', 'K', 'C', 'U', '\\'],
        hive_prefix(Hive::LocalMachine) != hive_prefix(Hive::CurrentUser),
{
    assert(hive_prefix(Hive::LocalMachine)[3] != hive_prefix(Hive::CurrentUser)[3]);
}

/// Whether `path` begins with the prefix of hive `h`.
pub open spec fn names_hive(path: Seq<char>, h: Hive) -> bool {
    hive_prefix(h).is_prefix_of(path)
}

/// Whether the five characters of `path` at `0..5` are `a b c d \`.
fn starts_with_five(path: &str, n: usize, a: char, b: char, c: char, d: char) -> (r: bool)
    requires
        n == path@.len(),
    ensures
        r == seq![a, b, c, d, '\\'].is_prefix_of(path@),
{
    if n < 5 {
        return false;
    }
    let r = path.get_char(0) == a && path.get_char(1) == b && path.get_char(2) == c
        && path.get_char(3) == d && path.get_char(4) == '\\';
    proof {
        let p = seq![a, b, c, d, '\\'];
        if r {
            assert(p =~= path@.subrange(0, 5));
        } else {
            if p.is_prefix_of(path@) {
                assert(path@[0] == p[0] && path@[1] == p[1] && path@[2] == p[2] && path@[3] == p[3]
                    && path@[4] == p[4]);
            }
        }
    }
    r
}

/// Splits an artifact's registry path into its hive and the subkey below it:
/// `HKLM\SOFTWARE\Foo` gives `LocalMachine` and `SOFTWARE\Foo`. A path that
/// starts with neither `HKLM\` nor `HKCU\` is refused with `UnknownHive`.
pub fn root_and_subkey(path: &str) -> (r: Result<(Hive, &str), HiveError>)
    ensures
        r is Ok <==> names_hive(path@, Hive::LocalMachine) || names_hive(path@, Hive::CurrentUser),
        r matches Ok((h, key)) ==> {
            &&& names_hive(path@, h)
            &&& path@ == hive_prefix(h) + key@
            &&& key@ == path@.skip(5)
        },
        r matches Err(e) ==> e == HiveError::UnknownHive,
{
    let n = path.unicode_len();
    let hive = if starts_with_five(path, n, 'H', 'K', 'L', 'M') {
        Hive::LocalMachine
    } else if starts_with_five(path, n, 'H', 'K', 'C', 'U') {
        Hive::CurrentUser
    } else {
        return Err(HiveError::UnknownHive);
    };
    let key = path.substring_char(5, n);
    assert(path@ =~= hive_prefix(hive) + key@);
    assert(key@ =~= path@.skip(5));
    Ok((hive, key))
}

} // verus!
