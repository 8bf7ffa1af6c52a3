//! Small text routines: comparing strings, reading decimal integers, and
//! telling whether a file name carries the `mp3` extension.

use vstd::prelude::*;

verus! {

/// Whether two strings hold the same characters.
pub fn same_text(a: &str, b: &str) -> (same: bool)
    ensures
        same == (a@ == b@),
{
    let n = a.unicode_len();
    if n != b.unicode_len() {
        return false;
    }
    let mut i: usize = 0;
    while i < n
        invariant
            n == a@.len(),
            n == b@.len(),
            i <= n,
            forall|j: int| 0 <= j < i ==> a@[j] == b@[j],
        decreases n - i,
    {
        if a.get_char(i) != b.get_char(i) {
            return false;
        }
        i = i + 1;
    }
    assert(a@ =~= b@);
    true
}

/// An ASCII decimal digit.
pub open spec fn is_digit(c: char) -> bool {
    '0' <= c && c <= '9'
}

/// The value of a string of decimal digits, most significant first.
pub open spec fn digits_value(s: Seq<char>) -> int
    decreases s.len(),
{
    if s.len() == 0 {
        0
    } else {
        digits_value(s.drop_last()) * 10 + (s.last() as int - '0' as int)
    }
}

/// Whether every character of `s` is a decimal digit.
pub open spec fn all_digits(s: Seq<char>) -> bool {
    forall|i: int| 0 <= i < s.len() ==> is_digit(#[trigger] s[i])
}

/// The integer written in `s`: an optional `+` or `-` sign followed by one or
/// more decimal digits and nothing else.
pub open spec fn decimal_value(s: Seq<char>) -> Option<int> {
    let negative = s.len() > 0 && s[0] == '-';
    let signed = s.len() > 0 && (s[0] == '-' || s[0] == '+');
    let digits = if signed { s.drop_first() } else { s };
    if digits.len() > 0 && all_digits(digits) {
        Some(if negative { -digits_value(digits) } else { digits_value(digits) })
    } else {
        None
    }
}

/// What `str::parse::<i32>` gives back: the integer written in `s` when it has
/// that form and fits in an `i32`.
pub open spec fn spec_parse_i32(s: Seq<char>) -> Option<i32> {
    match decimal_value(s) {
        Some(v) => if i32::MIN <= v <= i32::MAX {
            Some(v as i32)
        } else {
            None
        },
        None => None,
    }
}

proof fn lemma_digits_value_nonneg(s: Seq<char>)
    requires
        all_digits(s),
    ensures
        digits_value(s) >= 0,
    decreases s.len(),
{
    if s.len() > 0 {
        assert(is_digit(s[s.len() - 1]));
        assert(all_digits(s.drop_last())) by {
            assert forall|i: int| 0 <= i < s.drop_last().len() implies is_digit(
                #[trigger] s.drop_last()[i],
            ) by {
                assert(s.drop_last()[i] == s[i]);
            }
        }
        lemma_digits_value_nonneg(s.drop_last());
    }
}

/// Reads a decimal `i32` as `str::parse::<i32>` does.
pub fn parse_i32(s: &str) -> (n: Option<i32>)
    ensures
        n == spec_parse_i32(s@),
{
    let len = s.unicode_len();
    let ghost text = s@;
    let mut start: usize = 0;
    let mut negative = false;
    if len > 0 {
        let c = s.get_char(0);
        if c == '-' {
            negative = true;
            start = 1;
        } else if c == '+' {
            start = 1;
        }
    }
    assert((text.len() > 0 && (text[0] == '-' || text[0] == '+')) == (start == 1));
    assert(negative == (text.len() > 0 && text[0] == '-'));
    let ghost digits = text.subrange(start as int, len as int);
    assert(digits =~= (if start == 1 { text.drop_first() } else { text }));
    if start == len {
        return None;
    }
    // Magnitude of the digits read so far, while it stays within 2^31.
    let mut magnitude: i64 = 0;
    let mut too_large = false;
    let mut i: usize = start;
    while i < len
        invariant
            len == text.len(),
            text == s@,
            start <= i <= len,
            digits == text.subrange(start as int, len as int),
            digits == (if start == 1 { text.drop_first() } else { text }),
            (text.len() > 0 && (text[0] == '-' || text[0] == '+')) == (start == 1),
            all_digits(text.subrange(start as int, i as int)),
            !too_large ==> magnitude == digits_value(text.subrange(start as int, i as int)),
            !too_large ==> 0 <= magnitude <= 0x8000_0000,
            too_large ==> digits_value(text.subrange(start as int, i as int)) > 0x8000_0000,
        decreases len - i,
    {
        let c = s.get_char(i);
        let ghost prefix = text.subrange(start as int, i as int);
        let ghost next = text.subrange(start as int, i + 1);
        assert(next.drop_last() =~= prefix);
        assert(next.last() == c);
        if !('0' <= c && c <= '9') {
            assert(!all_digits(digits)) by {
                assert(digits[i - start] == c);
            }
            return None;
        }
        proof {
            lemma_digits_value_nonneg(prefix);
        }
        let d = (c as u32 - '0' as u32) as i64;
        if !too_large {
            magnitude = magnitude * 10 + d;
            if magnitude > 0x8000_0000 {
                too_large = true;
            }
        }
        assert(all_digits(next)) by {
            assert forall|j: int| 0 <= j < next.len() implies is_digit(#[trigger] next[j]) by {
                if j < next.len() - 1 {
                    assert(next[j] == prefix[j]);
                }
            }
        }
        i = i + 1;
    }
    assert(text.subrange(start as int, len as int) == digits);
    if too_large {
        return None;
    }
    if negative {
        Some((0 - magnitude) as i32)
    } else if magnitude <= 0x7fff_ffff {
        Some(magnitude as i32)
    } else {
        None
    }
}

/// The position of the last `.` in `s`, if any.
pub open spec fn last_dot(s: Seq<char>) -> Option<int>
    decreases s.len(),
{
    if s.len() == 0 {
        None
    } else if s.last() == '.' {
        Some(s.len() - 1)
    } else {
        last_dot(s.drop_last())
    }
}

proof fn lemma_last_dot_in_range(s: Seq<char>)
    ensures
        last_dot(s) matches Some(i) ==> 0 <= i < s.len() && s[i] == '.',
    decreases s.len(),
{
    if s.len() > 0 && s.last() != '.' {
        lemma_last_dot_in_range(s.drop_last());
    }
}

/// The extension of a file name, as `Path::extension` takes it: what follows
/// the last `.`, where that dot is not the first character; none for `..`.
pub open spec fn extension(name: Seq<char>) -> Option<Seq<char>> {
    if name == ".."@ {
        None
    } else {
        match last_dot(name) {
            Some(i) => if i > 0 {
                Some(name.subrange(i + 1, name.len() as int))
            } else {
                None
            },
            None => None,
        }
    }
}

/// Whether a file name has the extension `mp3` (in lower case).
pub fn has_mp3_extension(file_name: &str) -> (mp3: bool)
    ensures
        mp3 == (extension(file_name@) == Some("mp3"@)),
{
    let ghost name = file_name@;
    let n = file_name.unicode_len();
    let mut dot: Option<usize> = None;
    let mut i: usize = 0;
    while i < n
        invariant
            n == name.len(),
            name == file_name@,
            i <= n,
            match dot {
                Some(d) => last_dot(name.take(i as int)) == Some(d as int),
                None => last_dot(name.take(i as int)) is None,
            },
        decreases n - i,
    {
        assert(name.take(i + 1).drop_last() =~= name.take(i as int));
        if file_name.get_char(i) == '.' {
            dot = Some(i);
        }
        i = i + 1;
    }
    assert(name.take(n as int) =~= name);
    proof {
        lemma_last_dot_in_range(name);
        reveal_strlit("..");
        reveal_strlit("mp3");
    }
    if same_text(file_name, "..") {
        return false;
    }
    match dot {
        Some(d) => {
            if d == 0 || n - d != 4 {
                assert(d > 0 ==> name.subrange(d + 1, n as int).len() != 3);
                return false;
            }
            let same = file_name.get_char(d + 1) == 'm' && file_name.get_char(d + 2) == 'p'
                && file_name.get_char(d + 3) == '3';
            let ghost ext = name.subrange(d + 1, n as int);
            assert(ext.len() == 3 && ext[0] == name[d + 1] && ext[1] == name[d + 2] && ext[2] == name[d
                + 3]);
            assert("mp3"@ =~= seq!['m', 'p', '3']);
            assert(same == (ext =~= "mp3"@));
            same
        },
        None => false,
    }
}

proof fn lemma_last_dot_is_last(s: Seq<char>)
    ensures
        last_dot(s) matches Some(i) ==> forall|j: int| i < j < s.len() ==> s[j] != '.',
        last_dot(s) is None ==> forall|j: int| 0 <= j < s.len() ==> s[j] != '.',
    decreases s.len(),
{
    lemma_last_dot_in_range(s);
    if s.len() > 0 && s.last() != '.' {
        let r = s.drop_last();
        lemma_last_dot_is_last(r);
        assert forall|j: int| 0 <= j < s.len() && (last_dot(s) matches Some(i) ==> i < j) implies s[j]
            != '.' by {
            if j < s.len() - 1 {
                assert(s[j] == r[j]);
            }
        }
    }
}

/// A file name has the extension `mp3` exactly when it ends in `.mp3` with at
/// least one character before that dot.
pub proof fn law_mp3_extension_is_the_suffix(name: Seq<char>)
    ensures
        (extension(name) == Some("mp3"@)) <==> (name.len() > 4 && name.subrange(
            name.len() - 4,
            name.len() as int,
        ) == ".mp3"@),
{
    reveal_strlit("..");
    reveal_strlit("mp3");
    reveal_strlit(".mp3");
    lemma_last_dot_in_range(name);
    lemma_last_dot_is_last(name);
    let n = name.len() as int;
    if name.len() > 4 && name.subrange(n - 4, n) == ".mp3"@ {
        let tail = name.subrange(n - 4, n);
        assert(tail[0] == '.' && tail[1] == 'm' && tail[2] == 'p' && tail[3] == '3');
        assert(name[n - 4] == '.' && name[n - 3] == 'm' && name[n - 2] == 'p' && name[n - 1] == '3');
        assert(name != ".."@) by {
            assert(name.len() != 2);
        }
        assert(last_dot(name) == Some(n - 4)) by {
            assert(last_dot(name) is Some);
            let i = last_dot(name).unwrap();
            assert(i >= n - 4);
        }
        assert(name.subrange(n - 3, n) =~= "mp3"@);
    }
    if extension(name) == Some("mp3"@) {
        let i = last_dot(name).unwrap();
        let ext = name.subrange(i + 1, n);
        assert(ext.len() == 3);
        assert(i == n - 4);
        assert(ext[0] == 'm' && ext[1] == 'p' && ext[2] == '3');
        assert(name.subrange(n - 4, n) =~= ".mp3"@);
    }
}

/// Reading decimal integers: a single digit is its own value; a digit put
/// behind a number multiplies it by ten and adds the digit; a leading `-`
/// negates and a leading `+` keeps the value; an empty text, or one with a
/// character other than a digit after the sign, is no number. An `i32` is read
/// exactly when the value lies within its range.
pub proof fn law_decimal_digits(s: Seq<char>, c: char)
    requires
        s.len() > 0,
        all_digits(s),
    ensures
        is_digit(c) ==> decimal_value(seq![c]) == Some(c as int - 48),
        is_digit(c) ==> decimal_value(s.push(c)) == Some(10 * decimal_value(s).unwrap() + (c as int
            - 48)),
        decimal_value(seq!['-'] + s) == Some(-decimal_value(s).unwrap()),
        decimal_value(seq!['+'] + s) == Some(decimal_value(s).unwrap()),
        decimal_value(s).unwrap() >= 0,
        !is_digit(c) ==> decimal_value(s.push(c)) is None && decimal_value(seq!['-'] + s.push(c))
            is None,
        decimal_value(Seq::<char>::empty()) is None,
        spec_parse_i32(s) == if decimal_value(s).unwrap() <= i32::MAX {
            Some(decimal_value(s).unwrap() as i32)
        } else {
            None::<i32>
        },
{
    lemma_digits_value_nonneg(s);
    assert(s[0] != '-' && s[0] != '+') by {
        assert(is_digit(s[0]));
    }
    let one = seq![c];
    assert(one.drop_last() =~= Seq::<char>::empty());
    assert(one[0] == c);
    if is_digit(c) {
        let t = s.push(c);
        assert(t[0] == s[0]);
        assert(t.drop_last() =~= s);
        assert(all_digits(t)) by {
            assert forall|i: int| 0 <= i < t.len() implies is_digit(#[trigger] t[i]) by {
                if i < s.len() {
                    assert(t[i] == s[i]);
                }
            }
        }
        assert(all_digits(one)) by {
            assert forall|i: int| 0 <= i < one.len() implies is_digit(#[trigger] one[i]) by {}
        }
        assert(digits_value(one.drop_last()) == 0);
        assert(one.last() == c);
        assert('0' as int == 48);
        assert(one[0] != '-' && one[0] != '+');
    } else {
        let t = s.push(c);
        assert(t[0] == s[0]);
        assert(!all_digits(t)) by {
            assert(t[t.len() - 1] == c);
        }
        let u = seq!['-'] + t;
        assert(u.drop_first() =~= t);
    }
    let m = seq!['-'] + s;
    assert(m.drop_first() =~= s);
    let p = seq!['+'] + s;
    assert(p.drop_first() =~= s);
}

} // verus!
