use vstd::prelude::*;

verus! {

/// The characters that `char::is_whitespace` accepts (Unicode `White_Space`).
pub open spec fn is_ws(c: char) -> bool {
    ('\u{9}' <= c && c <= '\u{d}') || c == ' ' || c == '\u{85}' || c == '\u{a0}'
        || c == '\u{1680}' || ('\u{2000}' <= c && c <= '\u{200a}') || c == '\u{2028}'
        || c == '\u{2029}' || c == '\u{202f}' || c == '\u{205f}' || c == '\u{3000}'
}

fn char_is_ws(c: char) -> (r: bool)
    ensures
        r == is_ws(c),
{
    ('\u{9}' <= c && c <= '\u{d}') || c == ' ' || c == '\u{85}' || c == '\u{a0}'
        || c == '\u{1680}' || ('\u{2000}' <= c && c <= '\u{200a}') || c == '\u{2028}'
        || c == '\u{2029}' || c == '\u{202f}' || c == '\u{205f}' || c == '\u{3000}'
}

/// `s` without its trailing whitespace.
pub open spec fn trim_end(s: Seq<char>) -> Seq<char>
    decreases s.len(),
{
    if s.len() > 0 && is_ws(s.last()) {
        trim_end(s.drop_last())
    } else {
        s
    }
}

/// The tokens, each followed by one space.
pub open spec fn spaced(toks: Seq<String>) -> Seq<char>
    decreases toks.len(),
{
    if toks.len() == 0 {
        Seq::empty()
    } else {
        spaced(toks.drop_last()) + toks.last()@ + seq![' ']
    }
}

/// The tokens of `toks` from `from` on, each followed by one space.
pub fn join_spaced(toks: &[String], from: usize) -> (r: String)
    requires
        from <= toks@.len(),
    ensures
        r@ == spaced(toks@.subrange(from as int, toks@.len() as int)),
{
    let mut r = String::new();
    let mut i: usize = from;
    assert(toks@.subrange(from as int, from as int) =~= Seq::<String>::empty());
    while i < toks.len()
        invariant
            from <= i <= toks@.len(),
            r@ == spaced(toks@.subrange(from as int, i as int)),
        decreases toks@.len() - i,
    {
        r.append(toks[i].as_str());
        proof { reveal_strlit(" "); }
        r.append(" ");
        assert(toks@.subrange(from as int, i + 1).drop_last() =~= toks@.subrange(from as int, i as int));
        assert(toks@.subrange(from as int, i + 1).last() == toks@[i as int]);
        i = i + 1;
    }
    r
}

/// A copy of `s` without its trailing whitespace.
pub fn trimmed_end(s: &str) -> (r: String)
    ensures
        r@ == trim_end(s@),
{
    let mut j: usize = s.unicode_len();
    assert(s@.take(j as int) =~= s@);
    while j > 0 && char_is_ws(s.get_char(j - 1))
        invariant
            j <= s@.len(),
            trim_end(s@) == trim_end(s@.take(j as int)),
        decreases j,
    {
        assert(s@.take(j as int).drop_last() =~= s@.take(j - 1));
        j = j - 1;
    }
    String::from_str(s.substring_char(0, j))
}

/// The character of a decimal digit `d < 10`.
pub open spec fn digit_char(d: nat) -> char {
    if d == 0 { '0' }
    else if d == 1 { '1' }
    else if d == 2 { '2' }
    else if d == 3 { '3' }
    else if d == 4 { '4' }
    else if d == 5 { '5' }
    else if d == 6 { '6' }
    else if d == 7 { '7' }
    else if d == 8 { '8' }
    else { '9' }
}

pub open spec fn is_digit(c: char) -> bool {
    '0' <= c && c <= '9'
}

pub open spec fn digit_value(c: char) -> nat {
    (c as int - '0' as int) as nat
}

/// The shortest decimal text of `n`.
pub open spec fn dec(n: nat) -> Seq<char>
    decreases n,
{
    if n < 10 {
        seq![digit_char(n)]
    } else {
        dec(n / 10).push(digit_char(n % 10))
    }
}

/// The value of a run of decimal digits, most significant first, while it stays
/// within `max`; `None` where a character is no digit or a prefix exceeds `max`.
pub open spec fn digits_upto(s: Seq<char>, max: nat) -> Option<nat>
    decreases s.len(),
{
    if s.len() == 0 {
        Some(0)
    } else {
        match digits_upto(s.drop_last(), max) {
            Some(v) => if is_digit(s.last()) && v * 10 + digit_value(s.last()) <= max {
                Some(v * 10 + digit_value(s.last()))
            } else {
                None
            },
            None => None,
        }
    }
}

/// An unsigned decimal number as Rust's `str::parse` reads it: an optional `+`,
/// then one or more digits, with a value no larger than `max`.
pub open spec fn parse_unsigned(s: Seq<char>, max: nat) -> Option<nat> {
    let d = if s.len() > 0 && s[0] == '+' { s.skip(1) } else { s };
    if d.len() == 0 { None } else { digits_upto(d, max) }
}

/// The id a command argument names: its value as a `u32`, or 0 where it is none.
pub open spec fn arg_id(s: Seq<char>) -> nat {
    match parse_unsigned(s, u32::MAX as nat) {
        Some(v) => v,
        None => 0,
    }
}

/// Reads `s` as an unsigned decimal number no larger than `max`.
pub fn parse_number(s: &str, max: u64) -> (r: Option<u64>)
    ensures
        r matches Some(v) ==> parse_unsigned(s@, max as nat) == Some(v as nat),
        r is None ==> parse_unsigned(s@, max as nat) is None,
{
    let n = s.unicode_len();
    let mut start: usize = 0;
    if n > 0 && s.get_char(0) == '+' {
        start = 1;
    }
    let ghost d = if s@.len() > 0 && s@[0] == '+' { s@.skip(1) } else { s@ };
    if start == n {
        return None;
    }
    let mut v: u64 = 0;
    let mut i: usize = start;
    while i < n
        invariant
            start <= i <= n,
            n == s@.len(),
            d == s@.skip(start as int),
            d == (if s@.len() > 0 && s@[0] == '+' { s@.skip(1) } else { s@ }),
            digits_upto(d.take(i - start), max as nat) == Some(v as nat),
        decreases n - i,
    {
        let c = s.get_char(i);
        assert(d.take(i + 1 - start).drop_last() =~= d.take(i - start));
        assert(d.take(i + 1 - start).last() == c);
        let ghost k: int = i + 1 - start;
        assert(digits_upto(d.take(k), max as nat) == match digits_upto(d.take(k).drop_last(), max as nat) {
            Some(w) => if is_digit(c) && w * 10 + digit_value(c) <= max as nat {
                Some(w * 10 + digit_value(c))
            } else {
                None::<nat>
            },
            None => None,
        });
        if c < '0' || c > '9' {
            proof { lemma_none_stays(d, max as nat, k); }
            return None;
        }
        let dv: u64 = ((c as u32) - ('0' as u32)) as u64;
        match v.checked_mul(10) {
            Some(m) => match m.checked_add(dv) {
                Some(w) => {
                    if w > max {
                        proof { lemma_none_stays(d, max as nat, k); }
                        return None;
                    }
                    v = w;
                }
                None => {
                    proof { lemma_none_stays(d, max as nat, k); }
                    return None;
                }
            },
            None => {
                proof { lemma_none_stays(d, max as nat, k); }
                return None;
            }
        }
        i = i + 1;
    }
    assert(d.take(n - start) =~= d);
    Some(v)
}

/// Reads `s` as a `u32`, or 0 where it is no valid one.
pub fn parse_id(s: &str) -> (r: u32)
    ensures
        r as nat == arg_id(s@),
{
    match parse_number(s, 4294967295u64) {
        Some(v) => v as u32,
        None => 0,
    }
}

/// `s` cut at every `sep`: the pieces between separators, in order, one more
/// than there are separators.
pub open spec fn pieces(s: Seq<char>, sep: char) -> Seq<Seq<char>>
    decreases s.len(),
{
    if s.len() == 0 {
        seq![Seq::empty()]
    } else {
        let p = pieces(s.drop_last(), sep);
        if s.last() == sep {
            p.push(Seq::empty())
        } else {
            p.update(p.len() - 1, p.last().push(s.last()))
        }
    }
}

/// The character ranges of the pieces of `s` between occurrences of `sep`.
pub fn piece_ranges(s: &str, sep: char) -> (r: Vec<(usize, usize)>)
    ensures
        r@.len() == pieces(s@, sep).len(),
        forall|k: int| 0 <= k < r@.len() ==> {
            &&& (#[trigger] r@[k]).0 <= r@[k].1 <= s@.len()
            &&& pieces(s@, sep)[k] == s@.subrange(r@[k].0 as int, r@[k].1 as int)
        },
{
    let n = s.unicode_len();
    let mut out: Vec<(usize, usize)> = Vec::new();
    let mut start: usize = 0;
    let mut i: usize = 0;
    assert(s@.take(0) =~= Seq::<char>::empty());
    assert(s@.subrange(0, 0) =~= Seq::<char>::empty());
    while i < n
        invariant
            start <= i <= n,
            n == s@.len(),
            pieces(s@.take(i as int), sep).len() == out@.len() + 1,
            forall|k: int| 0 <= k < out@.len() ==> {
                &&& (#[trigger] out@[k]).0 <= out@[k].1 <= n
                &&& pieces(s@.take(i as int), sep)[k] == s@.subrange(out@[k].0 as int, out@[k].1 as int)
            },
            pieces(s@.take(i as int), sep).last() == s@.subrange(start as int, i as int),
        decreases n - i,
    {
        let ghost p = pieces(s@.take(i as int), sep);
        assert(s@.take(i + 1).drop_last() =~= s@.take(i as int));
        assert(s@.take(i + 1).last() == s@[i as int]);
        let c = s.get_char(i);
        if c == sep {
            out.push((start, i));
            start = i + 1;
            assert(s@.subrange(start as int, start as int) =~= Seq::<char>::empty());
        } else {
            assert(s@.subrange(start as int, i + 1) =~= s@.subrange(start as int, i as int).push(c));
        }
        i = i + 1;
    }
    assert(s@.take(n as int) =~= s@);
    out.push((start, n));
    out
}

proof fn lemma_none_stays(d: Seq<char>, max: nat, k: int)
    requires
        0 <= k <= d.len(),
        digits_upto(d.take(k), max) is None,
    ensures
        digits_upto(d, max) is None,
    decreases d.len() - k,
{
    if k < d.len() {
        assert(d.take(k + 1).drop_last() =~= d.take(k));
        lemma_none_stays(d, max, k + 1);
    } else {
        assert(d.take(k) =~= d);
    }
}

/// The text of one decimal digit.
fn digit_str(d: u64) -> (r: &'static str)
    requires
        d < 10,
    ensures
        r@ == seq![digit_char(d as nat)],
{
    proof {
        reveal_strlit("0");
        reveal_strlit("1");
        reveal_strlit("2");
        reveal_strlit("3");
        reveal_strlit("4");
        reveal_strlit("5");
        reveal_strlit("6");
        reveal_strlit("7");
        reveal_strlit("8");
        reveal_strlit("9");
    }
    if d == 0 { "0" }
    else if d == 1 { "1" }
    else if d == 2 { "2" }
    else if d == 3 { "3" }
    else if d == 4 { "4" }
    else if d == 5 { "5" }
    else if d == 6 { "6" }
    else if d == 7 { "7" }
    else if d == 8 { "8" }
    else { "9" }
}

/// Appends the decimal text of `n` to `s`.
pub fn append_dec(s: &mut String, n: u64)
    ensures
        final(s)@ == old(s)@ + dec(n as nat),
    decreases n,
{
    if n >= 10 {
        append_dec(s, n / 10);
    }
    s.append(digit_str(n % 10));
    assert(dec(n as nat) =~= if n < 10 { seq![digit_char(n as nat)] } else { dec((n / 10) as nat).push(digit_char((n % 10) as nat)) });
}

} // verus!
