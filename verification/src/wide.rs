use vstd::prelude::*;

verus! {

/// The UTF-16 code units of one character: the character's own value below
/// `0x10000`, else a high and a low surrogate.
pub open spec fn utf16_units(c: char) -> Seq<u16> {
    let v = c as u32;
    if v < 0x10000 {
        seq![v as u16]
    } else {
        seq![(0xD800 + (v - 0x10000) / 0x400) as u16, (0xDC00 + (v - 0x10000) % 0x400) as u16]
    }
}

/// The UTF-16 encoding of a character sequence.
pub open spec fn utf16(s: Seq<char>) -> Seq<u16>
    decreases s.len(),
{
    if s.len() == 0 {
        Seq::empty()
    } else {
        utf16(s.drop_last()) + utf16_units(s.last())
    }
}

/// The name as a nul-terminated UTF-16 string, as the wide Windows API
/// functions take it.
pub fn to_wide(s: &str) -> (r: Vec<u16>)
    ensures
        r@ == utf16(s@).push(0u16),
{
    let n = s.unicode_len();
    let mut out: Vec<u16> = Vec::new();
    let mut i: usize = 0;
    while i < n
        invariant
            n == s@.len(),
            i <= n,
            out@ == utf16(s@.take(i as int)),
        decreases n - i,
    {
        let c = s.get_char(i);
        let v = c as u32;
        if v < 0x10000 {
            out.push(v as u16);
        } else {
            let w = v - 0x10000;
            out.push((0xD800 + w / 0x400) as u16);
            out.push((0xDC00 + w % 0x400) as u16);
        }
        assert(s@.take(i + 1).drop_last() =~= s@.take(i as int));
        i = i + 1;
    }
    assert(s@.take(n as int) =~= s@);
    out.push(0u16);
    out
}

/// Whether a code unit is a high (leading) surrogate.
pub open spec fn is_high_surrogate(u: u16) -> bool {
    0xD800 <= u < 0xDC00
}

/// Whether a code unit is a low (trailing) surrogate.
pub open spec fn is_low_surrogate(u: u16) -> bool {
    0xDC00 <= u < 0xE000
}

/// The characters that well-formed UTF-16 code units encode: a high
/// surrogate followed by a low one is one character above `0xFFFF`, any
/// other unit is the character of its own value.
pub open spec fn decode_utf16(w: Seq<u16>) -> Seq<char>
    decreases w.len(),
{
    if w.len() == 0 {
        Seq::empty()
    } else if w.len() >= 2 && is_low_surrogate(w.last()) && is_high_surrogate(w[w.len() - 2]) {
        decode_utf16(w.subrange(0, w.len() - 2)).push(
            ((0x10000 + (w[w.len() - 2] - 0xD800) * 0x400 + (w.last() - 0xDC00)) as u32) as char,
        )
    } else {
        decode_utf16(w.drop_last()).push((w.last() as u32) as char)
    }
}

/// Decoding the UTF-16 encoding of a text gives the text back, so the
/// units `to_wide` hands the Windows API, less the final nul, name exactly
/// the artifact's path.
pub proof fn lemma_utf16_round_trip(s: Seq<char>)
    ensures
        decode_utf16(utf16(s)) == s,
    decreases s.len(),
{
    if s.len() > 0 {
        let t = s.drop_last();
        let c = s.last();
        lemma_utf16_round_trip(t);
        let x = utf16(t);
        let w = utf16(s);
        let v = c as u32;
        vstd::utf8::char_is_scalar(c);
        vstd::utf8::char_u32_cast(c, v);
        assert(w == x + utf16_units(c));
        assert(v <= 0xD7FF || 0xE000 <= v <= 0x10FFFF);
        if v < 0x10000 {
            let u = v as u16;
            assert(u as int == v as int);
            assert(!is_low_surrogate(u));
            assert(w.drop_last() =~= x);
            assert(w.last() == u);
            assert((u as u32) == v);
        } else {
            let d = v - 0x10000;
            let q = d / 0x400;
            let r = d % 0x400;
            assert(q * 0x400 + r == d && 0 <= r < 0x400) by (nonlinear_arith)
                requires
                    q == d / 0x400,
                    r == d % 0x400,
            ;
            assert(0 <= q < 0x400) by (nonlinear_arith)
                requires
                    q == d / 0x400,
                    0 <= d < 0x100000,
            ;
            let hi = (0xD800 + q) as u16;
            let lo = (0xDC00 + r) as u16;
            assert(hi as int == 0xD800 + q);
            assert(lo as int == 0xDC00 + r);
            assert(utf16_units(c) == seq![hi, lo]);
            assert(w.subrange(0, w.len() - 2) =~= x);
            assert(w.last() == lo);
            assert(w[w.len() - 2] == hi);
            assert(0x10000 + (hi - 0xD800) * 0x400 + (lo - 0xDC00) == v as int);
            assert(((0x10000 + (hi - 0xD800) * 0x400 + (lo - 0xDC00)) as u32) == v);
        }
        assert(t.push(c) =~= s);
    }
}

} // verus!
