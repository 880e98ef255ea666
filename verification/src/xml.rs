//! The XML token model and the numeric fields read from it.
//!
//! The tokenizer itself lives at the I/O edge; the library receives each
//! token as plain values: an element name with its attributes, text, or an
//! end-of-file mark.  Times are whole seconds (the text left of the first
//! dot); lengths and coordinates are parsed as decimals into milli-units.

use vstd::prelude::*;

verus! {

/// One XML token.
#[derive(Debug, PartialEq)]
pub enum XmlEvent {
    Start { name: String, attributes: Vec<(String, String)> },
    Empty { name: String, attributes: Vec<(String, String)> },
    End { name: String },
    Text { content: String },
    Eof,
}

/// The first value held under `key`, if any.
pub open spec fn spec_attr_of(attrs: Seq<(String, String)>, key: Seq<char>) -> Option<String>
    decreases attrs.len(),
{
    if attrs.len() == 0 {
        None
    } else if attrs.first().0@ == key {
        Some(attrs.first().1)
    } else {
        spec_attr_of(attrs.drop_first(), key)
    }
}

/// Retrieve the first value associated with a key on an element.
pub fn get_attribute<'a>(attributes: &'a Vec<(String, String)>, key: &String) -> (r: Option<
    &'a String,
>)
    ensures
        match r {
            Some(v) => spec_attr_of(attributes@, key@) == Some(*v),
            None => spec_attr_of(attributes@, key@) is None,
        },
{
    let n = attributes.len();
    proof {
        assert(attributes@.subrange(0, n as int) =~= attributes@);
    }
    for i in 0..n
        invariant
            n == attributes@.len(),
            forall|j: int| 0 <= j < i ==> attributes@[j].0@ != key@,
            spec_attr_of(attributes@, key@) == spec_attr_of(
                attributes@.subrange(i as int, n as int),
                key@,
            ),
    {
        proof {
            assert(attributes@.subrange(i as int, n as int).first() == attributes@[i as int]);
            assert(attributes@.subrange(i as int, n as int).drop_first() =~= attributes@.subrange(
                i + 1,
                n as int,
            ));
        }
        if attributes[i].0 == *key {
            return Some(&attributes[i].1);
        }
    }
    proof {
        assert(attributes@.subrange(n as int, n as int).len() == 0);
    }
    None
}

/// Whether the character is a decimal digit.
pub open spec fn spec_is_digit(c: char) -> bool {
    48 <= c as int <= 57
}

/// All characters are digits.
pub open spec fn spec_all_digits(s: Seq<char>) -> bool {
    forall|i: int| 0 <= i < s.len() ==> spec_is_digit(#[trigger] s[i])
}

/// The value of a digit string.
pub open spec fn spec_digits_val(s: Seq<char>) -> int
    decreases s.len(),
{
    if s.len() == 0 {
        0
    } else {
        spec_digits_val(s.drop_last()) * 10 + (s.last() as int - 48)
    }
}

/// The parse of a whole decimal number: every character a digit, at least
/// one of them, and the value within the given bound.
pub open spec fn spec_parse_uint(s: Seq<char>, bound: int) -> Option<int> {
    if s.len() > 0 && spec_all_digits(s) && spec_digits_val(s) <= bound {
        Some(spec_digits_val(s))
    } else {
        None
    }
}

/// Parse a whole decimal number as `u32`.
pub fn parse_u32(s: &str) -> (r: Option<u32>)
    ensures
        match r {
            Some(v) => spec_parse_uint(s@, u32::MAX as int) == Some(v as int),
            None => spec_parse_uint(s@, u32::MAX as int) is None,
        },
{
    let n = s.unicode_len();
    if n == 0 {
        return None;
    }
    let mut value: u64 = 0;
    for i in 0..n
        invariant
            n == s@.len(),
            spec_all_digits(s@.subrange(0, i as int)),
            value == spec_digits_val(s@.subrange(0, i as int)),
            value <= u32::MAX,
    {
        let c = s.get_char(i);
        let d = c as u32;
        if d < 48 || d > 57 {
            proof {
                assert(!spec_is_digit(s@[i as int]));
            }
            return None;
        }
        value = value * 10 + (d - 48) as u64;
        proof {
            assert(s@.subrange(0, i + 1).drop_last() =~= s@.subrange(0, i as int));
            assert(s@.subrange(0, i + 1).last() == s@[i as int]);
        }
        if value > u32::MAX as u64 {
            proof {
                lemma_digits_val_grows(s@, i + 1);
            }
            return None;
        }
    }
    proof {
        assert(s@.subrange(0, n as int) =~= s@);
    }
    Some(value as u32)
}

/// A digit string's value never shrinks as it is extended.
proof fn lemma_digits_val_grows(s: Seq<char>, i: int)
    requires
        0 <= i <= s.len(),
        spec_all_digits(s.subrange(0, i)),
        spec_digits_val(s.subrange(0, i)) > u32::MAX,
    ensures
        spec_parse_uint(s, u32::MAX as int) is None,
    decreases s.len() - i,
{
    if i == s.len() {
        assert(s.subrange(0, i) =~= s);
        if spec_all_digits(s) {
            assert(spec_digits_val(s) > u32::MAX);
        }
    } else {
        if spec_is_digit(s[i]) {
            assert(s.subrange(0, i + 1).drop_last() =~= s.subrange(0, i));
            assert(s.subrange(0, i + 1).last() == s[i]);
            assert(spec_digits_val(s.subrange(0, i + 1)) == spec_digits_val(s.subrange(0, i)) * 10
                + (s[i] as int - 48));
            lemma_digits_val_grows(s, i + 1);
        } else {
            assert(!spec_all_digits(s));
        }
    }
}

/// The seconds in a time field: the whole number left of the first dot.
/// A field with no dot, or whose whole part does not parse, has none.
pub open spec fn spec_time_of(s: Seq<char>) -> Option<int> {
    if exists|i: int| 0 <= i < s.len() && s[i] == '.' {
        let dot = choose|i: int|
            0 <= i < s.len() && s[i] == '.' && (forall|j: int| 0 <= j < i ==> s[j] != '.');
        spec_parse_uint(s.subrange(0, dot), u32::MAX as int)
    } else {
        None
    }
}

/// Parse a time field: whole seconds, read up to the first dot.
pub fn parse_time(s: &String) -> (r: Option<u32>)
    ensures
        match r {
            Some(v) => spec_time_of(s@) == Some(v as int),
            None => spec_time_of(s@) is None,
        },
{
    let sl = s.as_str();
    let n = sl.unicode_len();
    for i in 0..n
        invariant
            n == sl@.len(),
            sl@ == s@,
            forall|j: int| 0 <= j < i ==> s@[j] != '.',
    {
        if sl.get_char(i) == '.' {
            let whole = sl.substring_char(0, i);
            let r = parse_u32(whole);
            proof {
                assert(s@[i as int] == '.');
                let d = choose|q: int|
                    0 <= q < s@.len() && s@[q] == '.' && (forall|j: int|
                        0 <= j < q ==> s@[j] != '.');
                assert(d == i as int);
                assert(whole@ == s@.subrange(0, i as int));
            }
            return r;
        }
    }
    proof {
        assert(forall|i: int| 0 <= i < s@.len() ==> s@[i] != '.');
    }
    None
}


/// The index of the first dot, or the length when there is none.
fn find_dot(s: &str) -> (r: usize)
    ensures
        r <= s@.len(),
        r < s@.len() ==> s@[r as int] == '.' && (forall|j: int| 0 <= j < r ==> s@[j] != '.'),
        r == s@.len() ==> forall|j: int| 0 <= j < s@.len() ==> s@[j] != '.',
{
    let n = s.unicode_len();
    for i in 0..n
        invariant
            n == s@.len(),
            forall|j: int| 0 <= j < i ==> s@[j] != '.',
    {
        if s.get_char(i) == '.' {
            return i;
        }
    }
    n
}

/// The parse of a decimal into milli-units: an optional leading minus, a
/// whole part, and an optional fraction read to three places (further
/// places are dropped).
pub open spec fn spec_milli_of(s: Seq<char>) -> Option<int> {
    if s.len() > 0 && s[0] == '-' {
        match spec_milli_mag(s.drop_first()) {
            Some(v) => Some(-v),
            None => None,
        }
    } else {
        spec_milli_mag(s)
    }
}

/// The magnitude of an unsigned decimal in milli-units.
pub open spec fn spec_milli_mag(s: Seq<char>) -> Option<int> {
    if exists|i: int| 0 <= i < s.len() && s[i] == '.' {
        let dot = choose|i: int|
            0 <= i < s.len() && s[i] == '.' && (forall|j: int| 0 <= j < i ==> s[j] != '.');
        let whole = spec_parse_uint(s.subrange(0, dot), 0x7fff_ffff);
        let frac = s.subrange(dot + 1, s.len() as int);
        let frac3 = if frac.len() <= 3 {
            frac
        } else {
            frac.subrange(0, 3)
        };
        if whole is Some && spec_all_digits(frac) && frac.len() > 0 {
            Some(whole->0 * 1000 + spec_digits_val(frac3) * spec_frac_scale(frac3.len() as int))
        } else {
            None
        }
    } else {
        match spec_parse_uint(s, 0x7fff_ffff) {
            Some(v) => Some(v * 1000),
            None => None,
        }
    }
}

/// What one unit in the last read fraction place is worth in milli-units.
pub open spec fn spec_frac_scale(places: int) -> int {
    if places == 1 {
        100
    } else if places == 2 {
        10
    } else {
        1
    }
}

/// Parse a decimal number into milli-units: "12.5" becomes 12500.
pub fn parse_milli(s: &String) -> (r: Option<i64>)
    ensures
        match r {
            Some(v) => spec_milli_of(s@) == Some(v as int),
            None => spec_milli_of(s@) is None,
        },
{
    let sl = s.as_str();
    let n = sl.unicode_len();
    if n > 0 && sl.get_char(0) == '-' {
        let mag = sl.substring_char(1, n);
        proof {
            assert(mag@ =~= s@.drop_first());
        }
        match parse_milli_mag(mag) {
            Some(v) => Some(-v),
            None => None,
        }
    } else {
        proof {
            if s@.len() > 0 {
                assert(s@[0] != '-');
            }
        }
        parse_milli_mag(sl)
    }
}

/// Parse an unsigned decimal into milli-units.
fn parse_milli_mag(s: &str) -> (r: Option<i64>)
    ensures
        match r {
            Some(v) => spec_milli_mag(s@) == Some(v as int) && 0 <= v
                <= 0x7fff_ffff * 1000 + 999,
            None => spec_milli_mag(s@) is None,
        },
{
    let n = s.unicode_len();
    let dot = find_dot(s);
    if dot == n {
        proof {
            assert(s@.subrange(0, n as int) =~= s@);
        }
        return match parse_u32_bounded(s, 0, n) {
            Some(v) => Some(v as i64 * 1000),
            None => None,
        };
    }
    proof {
        assert(s@[dot as int] == '.');
        let d = choose|q: int|
            0 <= q < s@.len() && s@[q] == '.' && (forall|j: int| 0 <= j < q ==> s@[j] != '.');
        assert(d == dot as int);
    }
    let whole = match parse_u32_bounded(s, 0, dot) {
        Some(v) => v,
        None => {
            return None;
        },
    };
    let frac_len = n - (dot + 1);
    if frac_len == 0 {
        return None;
    }
    let mut q = dot + 1;
    while q < n
        invariant
            n == s@.len(),
            dot < q <= n,
            s@[dot as int] == '.',
            forall|j: int| 0 <= j < dot ==> s@[j] != '.',
            spec_all_digits(s@.subrange(dot + 1, q as int)),
        decreases n - q,
    {
        let c = s.get_char(q);
        let d = c as u32;
        if d < 48 || d > 57 {
            proof {
                assert(!spec_is_digit(s@[q as int]));
                let dd = choose|w: int|
                    0 <= w < s@.len() && s@[w] == '.' && (forall|j: int|
                        0 <= j < w ==> s@[j] != '.');
                assert(dd == dot as int);
                let frac = s@.subrange(dot + 1, s@.len() as int);
                assert(frac[q - dot - 1] == s@[q as int]);
                assert(!spec_all_digits(frac));
            }
            return None;
        }
        proof {
            assert(s@.subrange(dot + 1, q + 1).drop_last() =~= s@.subrange(dot + 1, q as int));
            assert(s@.subrange(dot + 1, q + 1).last() == s@[q as int]);
        }
        q = q + 1;
    }
    proof {
        assert(s@.subrange(dot + 1, n as int) =~= s@.subrange(dot + 1, s@.len() as int));
    }
    let take = if frac_len <= 3 {
        frac_len
    } else {
        3
    };
    let frac_val = match parse_u32_bounded(s, dot + 1, dot + 1 + take) {
        Some(v) => v,
        None => {
            proof {
                let f3 = s@.subrange(dot + 1, dot + 1 + take);
                assert(spec_all_digits(f3));
                lemma_small_digits_val(f3);
                assert(false);
            }
            return None;
        },
    };
    let scale: i64 = if take == 1 {
        100
    } else if take == 2 {
        10
    } else {
        1
    };
    proof {
        let frac = s@.subrange(dot + 1, s@.len() as int);
        let frac3 = if frac.len() <= 3 {
            frac
        } else {
            frac.subrange(0, 3)
        };
        assert(frac3 =~= s@.subrange(dot + 1, dot + 1 + take));
        lemma_small_digits_val(frac3);
    }
    Some(whole as i64 * 1000 + frac_val as i64 * scale)
}

/// A digit string of at most three places values below 1000.
proof fn lemma_small_digits_val(s: Seq<char>)
    requires
        spec_all_digits(s),
    ensures
        0 <= spec_digits_val(s),
        s.len() <= 1 ==> spec_digits_val(s) < 10,
        s.len() <= 2 ==> spec_digits_val(s) < 100,
        s.len() <= 3 ==> spec_digits_val(s) < 1000,
    decreases s.len(),
{
    if s.len() > 0 {
        assert forall|i: int| 0 <= i < s.drop_last().len() implies spec_is_digit(
            #[trigger] s.drop_last()[i],
        ) by {
            assert(s.drop_last()[i] == s[i]);
        }
        lemma_small_digits_val(s.drop_last());
        assert(spec_is_digit(s[s.len() - 1]));
        assert(s.last() == s[s.len() - 1]);
    }
}

/// Parse the digits of `s[lo .. hi]` as a bounded whole number.
fn parse_u32_bounded(s: &str, lo: usize, hi: usize) -> (r: Option<u32>)
    requires
        lo <= hi <= s@.len(),
    ensures
        match r {
            Some(v) => spec_parse_uint(s@.subrange(lo as int, hi as int), 0x7fff_ffff) == Some(
                v as int,
            ) && v <= 0x7fff_ffff,
            None => spec_parse_uint(s@.subrange(lo as int, hi as int), 0x7fff_ffff) is None,
        },
{
    if lo == hi {
        return None;
    }
    let mut value: u64 = 0;
    let mut i = lo;
    while i < hi
        invariant
            lo <= i <= hi <= s@.len(),
            spec_all_digits(s@.subrange(lo as int, i as int)),
            value == spec_digits_val(s@.subrange(lo as int, i as int)),
            value <= 0x7fff_ffff,
        decreases hi - i,
    {
        let c = s.get_char(i);
        let d = c as u32;
        if d < 48 || d > 57 {
            proof {
                assert(!spec_is_digit(s@[i as int]));
                assert(s@.subrange(lo as int, hi as int)[i - lo] == s@[i as int]);
            }
            return None;
        }
        value = value * 10 + (d - 48) as u64;
        proof {
            assert(s@.subrange(lo as int, i + 1).drop_last() =~= s@.subrange(lo as int, i as int));
            assert(s@.subrange(lo as int, i + 1).last() == s@[i as int]);
        }
        if value > 0x7fff_ffff {
            proof {
                lemma_digits_val_grows_bounded(s@, lo as int, i + 1, hi as int);
            }
            return None;
        }
        i = i + 1;
    }
    Some(value as u32)
}

/// A digit prefix already over the bound keeps the whole string over it.
proof fn lemma_digits_val_grows_bounded(s: Seq<char>, lo: int, i: int, hi: int)
    requires
        0 <= lo <= i <= hi <= s.len(),
        spec_all_digits(s.subrange(lo, i)),
        spec_digits_val(s.subrange(lo, i)) > 0x7fff_ffff,
    ensures
        spec_parse_uint(s.subrange(lo, hi), 0x7fff_ffff) is None,
    decreases hi - i,
{
    if i == hi {
        assert(s.subrange(lo, i) =~= s.subrange(lo, hi));
    } else {
        if spec_is_digit(s[i]) {
            assert(s.subrange(lo, i + 1).drop_last() =~= s.subrange(lo, i));
            assert(s.subrange(lo, i + 1).last() == s[i]);
            lemma_digits_val_grows_bounded(s, lo, i + 1, hi);
        } else {
            assert(s.subrange(lo, hi)[i - lo] == s[i]);
            assert(!spec_all_digits(s.subrange(lo, hi)));
        }
    }
}

} // verus!
