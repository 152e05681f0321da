use vstd::prelude::*;

verus! {

/// The character of a decimal digit.
pub open spec fn digit_char(d: nat) -> char {
    (48 + d) as char
}

/// The decimal digits of `n`, most significant first, without leading zeros.
pub open spec fn decimal(n: nat) -> Seq<char>
    decreases n,
{
    if n < 10 {
        seq![digit_char(n)]
    } else {
        decimal(n / 10).push(digit_char(n % 10))
    }
}

/// The one-character text of a decimal digit.
fn digit_text(d: u64) -> (r: &'static str)
    requires
        d < 10,
    ensures
        r@ == seq![digit_char(d as nat)],
{
    if d == 0 {
        proof {
            reveal_strlit("0");
        }
        "0"
    } else if d == 1 {
        proof {
            reveal_strlit("1");
        }
        "1"
    } else if d == 2 {
        proof {
            reveal_strlit("2");
        }
        "2"
    } else if d == 3 {
        proof {
            reveal_strlit("3");
        }
        "3"
    } else if d == 4 {
        proof {
            reveal_strlit("4");
        }
        "4"
    } else if d == 5 {
        proof {
            reveal_strlit("5");
        }
        "5"
    } else if d == 6 {
        proof {
            reveal_strlit("6");
        }
        "6"
    } else if d == 7 {
        proof {
            reveal_strlit("7");
        }
        "7"
    } else if d == 8 {
        proof {
            reveal_strlit("8");
        }
        "8"
    } else {
        proof {
            reveal_strlit("9");
        }
        "9"
    }
}

/// The number that a text of decimal digits stands for.
pub open spec fn digits_value(s: Seq<char>) -> int
    decreases s.len(),
{
    if s.len() == 0 {
        0
    } else {
        digits_value(s.drop_last()) * 10 + (s.last() as int - 48)
    }
}

/// The decimal text of `n` is made of the digits `0`-`9` only, has no
/// leading zero, and reads back as `n`.
pub proof fn lemma_decimal_reads_back(n: nat)
    ensures
        decimal(n).len() >= 1,
        forall|i: int| 0 <= i < decimal(n).len() ==> '0' <= #[trigger] decimal(n)[i] <= '9',
        n >= 10 ==> decimal(n)[0] != '0',
        digits_value(decimal(n)) == n,
    decreases n,
{
    if n < 10 {
        assert(decimal(n) == seq![digit_char(n)]);
        assert(digit_char(n) as int == 48 + n);
        assert(decimal(n).drop_last() =~= Seq::<char>::empty());
        assert(digits_value(decimal(n).drop_last()) == 0);
        assert(decimal(n).last() == digit_char(n));
    } else {
        let q = n / 10;
        let r = n % 10;
        lemma_decimal_reads_back(q);
        assert(q * 10 + r == n && 0 <= r < 10 && 1 <= q < n) by (nonlinear_arith)
            requires
                q == n / 10,
                r == n % 10,
                n >= 10,
        ;
        assert(digit_char(r) as int == 48 + r);
        let d = decimal(n);
        assert(d == decimal(q).push(digit_char(r)));
        assert(d.drop_last() =~= decimal(q));
        assert(d.last() == digit_char(r));
        assert(digits_value(d) == digits_value(decimal(q)) * 10 + r);
        assert forall|i: int| 0 <= i < d.len() implies '0' <= #[trigger] d[i] <= '9' by {
            if i < decimal(q).len() {
                assert(d[i] == decimal(q)[i]);
            }
        }
        assert(d[0] == decimal(q)[0]);
        if q < 10 {
            assert(decimal(q) == seq![digit_char(q)]);
            assert(digit_char(q) as int == 48 + q);
        }
    }
}

/// Appends the decimal digits of `n` to `out`.
fn push_decimal(out: &mut String, n: u64)
    ensures
        final(out)@ == old(out)@ + decimal(n as nat),
    decreases n,
{
    if n >= 10 {
        push_decimal(out, n / 10);
    }
    out.append(digit_text(n % 10));
}

/// `n` written in decimal, as `to_string` writes it.
pub fn decimal_string(n: u64) -> (r: String)
    ensures
        r@ == decimal(n as nat),
{
    let mut r = String::new();
    push_decimal(&mut r, n);
    r
}

/// `parts` with `sep` between each two of them.
pub open spec fn joined(parts: Seq<Seq<char>>, sep: Seq<char>) -> Seq<char>
    decreases parts.len(),
{
    if parts.len() == 0 {
        Seq::empty()
    } else if parts.len() == 1 {
        parts[0]
    } else {
        joined(parts.drop_last(), sep) + sep + parts.last()
    }
}

/// The total length of the parts.
pub open spec fn total_len(parts: Seq<Seq<char>>) -> nat
    decreases parts.len(),
{
    if parts.len() == 0 {
        0
    } else {
        total_len(parts.drop_last()) + parts.last().len()
    }
}

/// Joining one more part adds the separator and that part at the end.
pub proof fn lemma_joined_push(parts: Seq<Seq<char>>, q: Seq<char>, sep: Seq<char>)
    requires
        parts.len() >= 1,
    ensures
        joined(parts.push(q), sep) == joined(parts, sep) + sep + q,
{
    assert(parts.push(q).drop_last() =~= parts);
}

/// Joining a single part gives that part.
pub proof fn lemma_joined_single(q: Seq<char>, sep: Seq<char>)
    ensures
        joined(seq![q], sep) == q,
{
}

/// The joined text holds every part and one separator between each two:
/// its length is the parts' total length plus `n - 1` separators.
pub proof fn lemma_joined_len(parts: Seq<Seq<char>>, sep: Seq<char>)
    requires
        parts.len() >= 1,
    ensures
        joined(parts, sep).len() + sep.len() == total_len(parts) + parts.len() * sep.len(),
    decreases parts.len(),
{
    if parts.len() == 1 {
        assert(parts.drop_last().len() == 0);
        assert(total_len(parts.drop_last()) == 0);
        assert(parts.last() == parts[0]);
        assert(total_len(parts) == parts[0].len());
    } else {
        let p = parts.drop_last();
        lemma_joined_len(p, sep);
        assert(parts.len() * sep.len() == p.len() * sep.len() + sep.len()) by (nonlinear_arith)
            requires
                parts.len() == p.len() + 1,
        ;
    }
}

/// Joining parts one after the other: the first `k + 1` parts joined are the
/// first `k` joined, the separator and the next part.
pub proof fn lemma_joined_prefix(parts: Seq<Seq<char>>, sep: Seq<char>, k: int)
    requires
        1 <= k < parts.len(),
    ensures
        joined(parts.take(k + 1), sep) == joined(parts.take(k), sep) + sep + parts[k],
{
    assert(parts.take(k + 1) =~= parts.take(k).push(parts[k]));
    lemma_joined_push(parts.take(k), parts[k], sep);
}

/// The texts of some strings.
pub open spec fn texts(parts: Seq<String>) -> Seq<Seq<char>> {
    parts.map_values(|p: String| p@)
}

/// The parts written one after the other with `sep` between them, as
/// `[String]::join` writes them.
pub fn join(parts: &Vec<String>, sep: &str) -> (r: String)
    ensures
        r@ == joined(texts(parts@), sep@),
{
    let n = parts.len();
    let ghost t = texts(parts@);
    let mut r = String::new();
    let mut i: usize = 0;
    while i < n
        invariant
            n == parts@.len(),
            t == texts(parts@),
            i <= n,
            r@ == joined(t.take(i as int), sep@),
        decreases n - i,
    {
        if i > 0 {
            r.append(sep);
        }
        r.append(parts[i].as_str());
        let ghost next = t.take(i + 1);
        assert(next.drop_last() =~= t.take(i as int));
        assert(next.last() == parts@[i as int]@);
        if i == 0 {
            assert(next.len() == 1);
        }
        i = i + 1;
    }
    assert(t.take(n as int) =~= t);
    r
}

/// The status line for one applied category: `"{name}: {ok} ok, {fail}
/// failed (admin?)"` when something failed, else `"{name}: {ok} artifacts"`.
pub fn apply_message(name: &str, ok: usize, fail: usize) -> (r: String)
    ensures
        fail > 0 ==> r@ == name@ + ": "@ + decimal(ok as nat) + " ok, "@ + decimal(fail as nat)
            + " failed (admin?)"@,
        fail == 0 ==> r@ == name@ + ": "@ + decimal(ok as nat) + " artifacts"@,
{
    let mut r = String::new();
    r.append(name);
    r.append(": ");
    push_decimal(&mut r, ok as u64);
    if fail > 0 {
        r.append(" ok, ");
        push_decimal(&mut r, fail as u64);
        r.append(" failed (admin?)");
    } else {
        r.append(" artifacts");
    }
    r
}

/// The log line naming the ghost processes that were started:
/// `"  processes: "` and the names joined by `", "`.
pub fn processes_message(names: &Vec<String>) -> (r: String)
    ensures
        r@ == "  processes: "@ + joined(texts(names@), ", "@),
{
    let mut r = String::new();
    r.append("  processes: ");
    let list = join(names, ", ");
    r.append(list.as_str());
    r
}

/// The status line after removal: `"Removed: "` and the names of the
/// categories that were active, joined by `", "`.
pub fn removed_message(names: &Vec<String>) -> (r: String)
    ensures
        r@ == "Removed: "@ + joined(texts(names@), ", "@),
{
    let mut r = String::new();
    r.append("Removed: ");
    let list = join(names, ", ");
    r.append(list.as_str());
    r
}

/// The tray icon's tooltip: how many ghost processes and registry keys are
/// active, or that nothing is.
pub fn tray_tooltip(procs: usize, keys: usize) -> (r: String)
    ensures
        procs > 0 || keys > 0 ==> r@ == "Chaff — "@ + decimal(procs as nat) + " processes, "@ + decimal(
            keys as nat,
        ) + " keys active"@,
        procs == 0 && keys == 0 ==> r@ == "Chaff — inactive"@,
{
    if procs > 0 || keys > 0 {
        let mut r = String::new();
        r.append("Chaff — ");
        push_decimal(&mut r, procs as u64);
        r.append(" processes, ");
        push_decimal(&mut r, keys as u64);
        r.append(" keys active");
        r
    } else {
        let mut r = String::new();
        r.append("Chaff — inactive");
        r
    }
}

/// The header's counters of active ghost processes, registry keys and
/// handles.
pub fn stats_line(procs: usize, keys: usize, handles: usize) -> (r: String)
    ensures
        r@ == decimal(procs as nat) + " processes  ·  "@ + decimal(keys as nat) + " reg keys  ·  "@
            + decimal(handles as nat) + " handles"@,
{
    let mut r = String::new();
    push_decimal(&mut r, procs as u64);
    r.append(" processes  ·  ");
    push_decimal(&mut r, keys as u64);
    r.append(" reg keys  ·  ");
    push_decimal(&mut r, handles as u64);
    r.append(" handles");
    r
}

/// The badge beside an active category: how many ghost processes run for a
/// process category, else just that it is active.
pub fn activity_badge(is_process_category: bool, running: usize) -> (r: String)
    ensures
        is_process_category ==> r@ == "● "@ + decimal(running as nat) + " running"@,
        !is_process_category ==> r@ == "● active"@,
{
    let mut r = String::new();
    if is_process_category {
        r.append("● ");
        push_decimal(&mut r, running as u64);
        r.append(" running");
    } else {
        r.append("● active");
    }
    r
}

/// The footer's label of the artifact database version.
pub fn version_label(version: &str) -> (r: String)
    ensures
        r@ == "db v"@ + version@,
{
    let mut r = String::new();
    r.append("db v");
    r.append(version);
    r
}

/// One line of the log file: the time in seconds since the Unix epoch in
/// square brackets, a space and the message.
pub fn log_line(timestamp: u64, msg: &str) -> (r: String)
    ensures
        r@ == "["@ + decimal(timestamp as nat) + "] "@ + msg@,
{
    let mut r = String::new();
    r.append("[");
    push_decimal(&mut r, timestamp);
    r.append("] ");
    r.append(msg);
    r
}

} // verus!
