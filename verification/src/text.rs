//! Text helpers: equality, substring search and decimal numbers.

use vstd::prelude::*;

verus! {

/// Whether `needle` occurs in `haystack` as a contiguous run of characters.
pub open spec fn occurs_in(haystack: Seq<char>, needle: Seq<char>) -> bool {
    exists|i: int|
        0 <= i && i + needle.len() <= haystack.len() && #[trigger] haystack.subrange(
            i,
            i + needle.len(),
        ) == needle
}

/// Whether two strings hold the same characters.
pub fn str_eq(a: &str, b: &str) -> (r: bool)
    ensures
        r == (a@ == b@),
{
    let x = a.to_owned();
    let y = b.to_owned();
    x == y
}

/// The characters of a string, in order.
pub fn chars_of(s: &str) -> (r: Vec<char>)
    ensures
        r@ == s@,
{
    broadcast use vstd::string::group_string_axioms;

    let mut out: Vec<char> = Vec::new();
    for c in it: s.chars()
        invariant
            out@ == it.seq().take(it.index() as int),
            it.seq() == s@,
    {
        out.push(c);
        proof {
            assert(out@ =~= it.seq().take(it.index() + 1));
        }
    }
    proof {
        assert(out@ =~= s@);
    }
    out
}

/// Whether `haystack` holds `needle` as a contiguous run of characters.
pub fn str_contains(haystack: &str, needle: &str) -> (r: bool)
    ensures
        r == occurs_in(haystack@, needle@),
{
    let h = chars_of(haystack);
    let n = chars_of(needle);
    if n.len() == 0 {
        proof {
            assert(haystack@.subrange(0int, 0int + needle@.len()) =~= needle@);
            assert(occurs_in(haystack@, needle@));
        }
        return true;
    }
    if n.len() > h.len() {
        proof {
            assert forall|i: int|
                0 <= i && i + n@.len() <= h@.len() implies #[trigger] h@.subrange(
                i,
                i + n@.len(),
            ) != n@ by {}
        }
        return false;
    }
    assert(h@.len() == h.len());
    let last_start = h.len() - n.len();
    let mut i: usize = 0;
    while i < last_start + 1
        invariant
            h@ == haystack@,
            n@ == needle@,
            0 < n@.len() <= h@.len(),
            h@.len() <= usize::MAX,
            last_start == h@.len() - n@.len(),
            i <= last_start + 1,
            forall|k: int| 0 <= k < i ==> #[trigger] h@.subrange(k, k + n@.len()) != n@,
        decreases last_start + 1 - i,
    {
        let mut j: usize = 0;
        let mut matched = true;
        while j < n.len()
            invariant_except_break
                matched,
            invariant
                h@ == haystack@,
                n@ == needle@,
                i + n@.len() <= h@.len(),
                h@.len() <= usize::MAX,
                j <= n@.len(),
                forall|m: int| 0 <= m < j ==> h@[i + m] == n@[m],
            ensures
                matched ==> forall|m: int| 0 <= m < n@.len() ==> h@[i + m] == n@[m],
                !matched ==> h@.subrange(i as int, i + n@.len()) != n@,
            decreases n@.len() - j,
        {
            if h[i + j] != n[j] {
                matched = false;
                proof {
                    assert(h@.subrange(i as int, i + n@.len())[j as int] == h@[i + j]);
                }
                break;
            }
            j = j + 1;
        }
        if matched {
            proof {
                assert(h@.subrange(i as int, i + n@.len()) =~= n@);
            }
            return true;
        }
        i = i + 1;
    }
    false
}

/// Whether a character is an ASCII decimal digit.
pub open spec fn is_digit(c: char) -> bool {
    '0' <= c && c <= '9'
}

/// Whether every character is an ASCII decimal digit.
pub open spec fn all_digits(s: Seq<char>) -> bool {
    forall|i: int| 0 <= i < s.len() ==> is_digit(#[trigger] s[i])
}

/// The number that a run of decimal digits denotes.
pub open spec fn digits_value(s: Seq<char>) -> nat
    decreases s.len(),
{
    if s.len() == 0 {
        0
    } else {
        digits_value(s.drop_last()) * 10 + ((s.last() as int - '0' as int) as nat)
    }
}

/// Digits after an optional leading `+`.
pub open spec fn unsigned_digits(s: Seq<char>) -> Seq<char> {
    if s.len() > 0 && s[0] == '+' {
        s.drop_first()
    } else {
        s
    }
}

/// What std's `u32::from_str` gives back: an optional `+`, then one or more
/// decimal digits whose value fits.
pub open spec fn parse_u32_value(s: Seq<char>) -> Option<u32> {
    let d = unsigned_digits(s);
    if d.len() > 0 && all_digits(d) && digits_value(d) <= u32::MAX {
        Some(digits_value(d) as u32)
    } else {
        None
    }
}

/// What std's `i32::from_str` gives back: an optional `+` or `-`, then one or
/// more decimal digits whose signed value fits.
pub open spec fn parse_i32_value(s: Seq<char>) -> Option<i32> {
    if s.len() > 0 && s[0] == '-' {
        let d = s.drop_first();
        if d.len() > 0 && all_digits(d) && digits_value(d) <= 0x8000_0000 {
            Some((0 - digits_value(d)) as i32)
        } else {
            None
        }
    } else {
        let d = unsigned_digits(s);
        if d.len() > 0 && all_digits(d) && digits_value(d) <= i32::MAX {
            Some(digits_value(d) as i32)
        } else {
            None
        }
    }
}

/// More digits never make the value smaller.
pub proof fn lemma_digits_value_grows(s: Seq<char>, k: int)
    requires
        0 <= k <= s.len(),
        all_digits(s),
    ensures
        digits_value(s.take(k)) <= digits_value(s),
    decreases s.len() - k,
{
    if k < s.len() {
        lemma_digits_value_grows(s, k + 1);
        assert(s.take(k + 1).drop_last() =~= s.take(k));
        assert(is_digit(s[k]));
    } else {
        assert(s.take(k) =~= s);
    }
}

/// The value of decimal digits, when it is at most `limit`.
fn digits_up_to(d: &Vec<char>, start: usize, limit: u64) -> (r: Option<u64>)
    requires
        start <= d@.len(),
        limit <= u32::MAX + 1,
    ensures
        r is Some <==> (d@.skip(start as int).len() > 0 && all_digits(d@.skip(start as int))
            && digits_value(d@.skip(start as int)) <= limit),
        r matches Some(v) ==> v == digits_value(d@.skip(start as int)),
{
    let ghost s = d@.skip(start as int);
    if start >= d.len() {
        return None;
    }
    let mut acc: u64 = 0;
    let mut i: usize = start;
    while i < d.len()
        invariant
            start <= i <= d@.len(),
            s == d@.skip(start as int),
            limit <= u32::MAX + 1,
            all_digits(s.take(i - start)),
            acc == digits_value(s.take(i - start)),
            acc <= limit,
        decreases d@.len() - i,
    {
        let c = d[i];
        proof {
            assert(s[i - start] == c);
        }
        if !('0' <= c && c <= '9') {
            return None;
        }
        let digit = (c as u32 - '0' as u32) as u64;
        let next = acc * 10 + digit;
        proof {
            let t = s.take(i - start + 1);
            assert(t.drop_last() =~= s.take(i - start));
            assert(t.last() == c);
            assert(all_digits(t));
        }
        if next > limit {
            proof {
                if all_digits(s) {
                    lemma_digits_value_grows(s, i - start + 1);
                }
            }
            return None;
        }
        acc = next;
        i = i + 1;
    }
    proof {
        assert(s.take(i - start) =~= s);
    }
    Some(acc)
}

/// Parse a decimal `u32` the way std's `u32::from_str` does.
pub fn parse_u32(s: &str) -> (r: Option<u32>)
    ensures
        r == parse_u32_value(s@),
{
    let d = chars_of(s);
    let start: usize = if d.len() > 0 && d[0] == '+' {
        1
    } else {
        0
    };
    proof {
        assert(d@.skip(start as int) =~= unsigned_digits(s@));
    }
    match digits_up_to(&d, start, 0xffff_ffff) {
        Some(v) => Some(v as u32),
        None => None,
    }
}

/// Parse a decimal `i32` the way std's `i32::from_str` does.
pub fn parse_i32(s: &str) -> (r: Option<i32>)
    ensures
        r == parse_i32_value(s@),
{
    let d = chars_of(s);
    if d.len() > 0 && d[0] == '-' {
        proof {
            assert(d@.skip(1) =~= s@.drop_first());
        }
        match digits_up_to(&d, 1, 0x8000_0000) {
            Some(v) => Some((0 - (v as i64)) as i32),
            None => None,
        }
    } else {
        let start: usize = if d.len() > 0 && d[0] == '+' {
            1
        } else {
            0
        };
        proof {
            assert(d@.skip(start as int) =~= unsigned_digits(s@));
        }
        match digits_up_to(&d, start, 0x7fff_ffff) {
            Some(v) => Some(v as i32),
            None => None,
        }
    }
}

} // verus!
