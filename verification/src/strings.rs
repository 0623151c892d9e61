//! Executable string functions, each proved against its statement in [`crate::text`].

use vstd::prelude::*;

use crate::text;
use crate::text::Class;

verus! {

/// The characters of a string.
pub fn to_chars(s: &str) -> (r: Vec<char>)
    ensures
        r@ == s@,
{
    let mut out: Vec<char> = Vec::new();
    for c in it: s.chars()
        invariant
            out@ == it.seq().take(it.index() as int),
            it.seq() == s@,
    {
        out.push(c);
    }
    out
}

/// The string made of the characters from `from` up to `to`.
pub fn from_chars(chars: &Vec<char>, from: usize, to: usize) -> (r: String)
    requires
        from <= to <= chars@.len(),
    ensures
        r@ == chars@.subrange(from as int, to as int),
{
    let mut out = String::new();
    let mut i: usize = from;
    while i < to
        invariant
            from <= i <= to <= chars@.len(),
            out@ == chars@.subrange(from as int, i as int),
        decreases to - i,
    {
        out.push(chars[i]);
        proof {
            assert(chars@.subrange(from as int, i + 1) =~= chars@.subrange(
                from as int,
                i as int,
            ).push(chars@[i as int]));
        }
        i = i + 1;
    }
    out
}

/// Tells whether two strings hold the same text.
pub fn same(s: &str, t: &str) -> (r: bool)
    ensures
        r == (s@ == t@),
{
    s.to_owned() == t.to_owned()
}

/// The text of `s` followed by that of `t`.
pub fn concat(s: &str, t: &str) -> (r: String)
    ensures
        r@ == s@ + t@,
{
    let mut out = s.to_owned();
    out.append(t);
    out
}

/// A copy of a list of strings.
pub fn copy_list(list: &Vec<String>) -> (r: Vec<String>)
    ensures
        text::texts(r@) == text::texts(list@),
{
    let mut out: Vec<String> = Vec::new();
    let mut i: usize = 0;
    while i < list.len()
        invariant
            i <= list@.len(),
            text::texts(out@) == text::texts(list@).take(i as int),
        decreases list@.len() - i,
    {
        let copy = list[i].clone();
        let ghost before = out@;
        out.push(copy);
        proof {
            assert(text::texts(out@) =~= text::texts(before).push(copy@));
            assert(text::texts(out@) =~= text::texts(list@).take(i + 1));
        }
        i = i + 1;
    }
    proof {
        assert(text::texts(list@).take(i as int) =~= text::texts(list@));
    }
    out
}

/// Dropping the characters of a class one by one from the start ends at the
/// first one outside of it.
proof fn lemma_trim_start_from(s: Seq<char>, class: Class, i: int)
    requires
        0 <= i <= s.len(),
        forall|k: int| 0 <= k < i ==> class.has(#[trigger] s[k]),
        i < s.len() ==> !class.has(s[i]),
    ensures
        text::trim_start(s, class) == s.skip(i),
    decreases i,
{
    if i == 0 {
        assert(s.skip(0) =~= s);
    } else {
        let rest = s.drop_first();
        assert forall|k: int| 0 <= k < i - 1 implies class.has(#[trigger] rest[k]) by {
            assert(rest[k] == s[k + 1]);
        }
        lemma_trim_start_from(rest, class, i - 1);
        assert(rest.skip(i - 1) =~= s.skip(i));
        assert(class.has(s[0]));
    }
}

/// Dropping the characters of a class one by one from the end stops behind the
/// last one outside of it.
proof fn lemma_trim_end_to(s: Seq<char>, class: Class, j: int)
    requires
        0 <= j <= s.len(),
        forall|k: int| j <= k < s.len() ==> class.has(#[trigger] s[k]),
        j > 0 ==> !class.has(s[j - 1]),
    ensures
        text::trim_end(s, class) == s.take(j),
    decreases s.len() - j,
{
    if j == s.len() {
        assert(s.take(j) =~= s);
    } else {
        let rest = s.drop_last();
        assert forall|k: int| j <= k < rest.len() implies class.has(#[trigger] rest[k]) by {
            assert(rest[k] == s[k]);
        }
        lemma_trim_end_to(rest, class, j);
        assert(rest.take(j) =~= s.take(j));
        assert(class.has(s[s.len() - 1]));
    }
}

/// What is left when the start is trimmed.
proof fn lemma_trimmed_start(s: Seq<char>, class: Class)
    ensures
        text::trim_start(s, class).len() > 0 ==> !class.has(text::trim_start(s, class)[0]),
    decreases s.len(),
{
    if s.len() > 0 && class.has(s[0]) {
        lemma_trimmed_start(s.drop_first(), class);
    }
}

/// What is left when the end is trimmed.
proof fn lemma_trimmed_end(s: Seq<char>, class: Class)
    ensures
        ({
            let t = text::trim_end(s, class);
            &&& t.len() > 0 ==> !class.has(t.last())
            &&& t.len() > 0 ==> t[0] == s[0]
        }),
    decreases s.len(),
{
    if s.len() > 0 && class.has(s.last()) {
        lemma_trimmed_end(s.drop_last(), class);
    }
}

/// Trimming again changes nothing.
pub proof fn lemma_trim_twice(s: Seq<char>, class: Class)
    ensures
        text::trim(text::trim(s, class), class) == text::trim(s, class),
{
    let front = text::trim_start(s, class);
    let t = text::trim_end(front, class);
    lemma_trimmed_start(s, class);
    lemma_trimmed_end(front, class);
}

/// `s` without the characters of the class at its end.
pub fn trim_end(s: &str, class: Class) -> (r: String)
    ensures
        r@ == text::trim_end(s@, class),
{
    let chars = to_chars(s);
    let mut j: usize = chars.len();
    while j > 0 && class.contains(chars[j - 1])
        invariant
            j <= chars@.len(),
            forall|k: int| j <= k < chars@.len() ==> class.has(#[trigger] chars@[k]),
        decreases j,
    {
        j = j - 1;
    }
    proof {
        lemma_trim_end_to(chars@, class, j as int);
        assert(chars@.subrange(0, j as int) =~= chars@.take(j as int));
    }
    from_chars(&chars, 0, j)
}

/// `s` without the characters of the class at either end.
pub fn trim(s: &str, class: Class) -> (r: String)
    ensures
        r@ == text::trim(s@, class),
{
    let chars = to_chars(s);
    let mut i: usize = 0;
    while i < chars.len() && class.contains(chars[i])
        invariant
            i <= chars@.len(),
            forall|k: int| 0 <= k < i ==> class.has(#[trigger] chars@[k]),
        decreases chars@.len() - i,
    {
        i = i + 1;
    }
    let rest = from_chars(&chars, i, chars.len());
    proof {
        lemma_trim_start_from(chars@, class, i as int);
        assert(chars@.subrange(i as int, chars@.len() as int) =~= chars@.skip(i as int));
    }
    trim_end(rest.as_str(), class)
}

/// The first position of a class, found by looking at each character in turn.
pub proof fn lemma_first_of(s: Seq<char>, class: Class, i: int)
    requires
        0 <= i <= s.len(),
        forall|k: int| 0 <= k < i ==> !class.has(#[trigger] s[k]),
        i < s.len() ==> class.has(s[i]),
    ensures
        text::first_of(s, class) == i,
    decreases i,
{
    if i > 0 {
        let rest = s.drop_first();
        assert forall|k: int| 0 <= k < i - 1 implies !class.has(#[trigger] rest[k]) by {
            assert(rest[k] == s[k + 1]);
        }
        assert(!class.has(s[0]));
        lemma_first_of(rest, class, i - 1);
    }
}

/// What [`text::first_of`] points at.
pub proof fn lemma_first_of_is_first(s: Seq<char>, class: Class)
    ensures
        text::first_of(s, class) <= s.len(),
        forall|k: int| 0 <= k < text::first_of(s, class) ==> !class.has(#[trigger] s[k]),
        text::first_of(s, class) < s.len() ==> class.has(s[text::first_of(s, class) as int]),
    decreases s.len(),
{
    if s.len() > 0 && !class.has(s[0]) {
        let rest = s.drop_first();
        lemma_first_of_is_first(rest, class);
        assert forall|k: int| 0 <= k < text::first_of(s, class) implies !class.has(
            #[trigger] s[k],
        ) by {
            if k > 0 {
                assert(s[k] == rest[k - 1]);
            }
        }
    }
}

/// The position of the first character of the class at or behind `from`, or the
/// length without one.
fn find(chars: &Vec<char>, from: usize, class: Class) -> (r: usize)
    requires
        from <= chars@.len(),
    ensures
        from <= r <= chars@.len(),
        r == from + text::first_of(chars@.skip(from as int), class),
{
    let mut i: usize = from;
    while i < chars.len() && !class.contains(chars[i])
        invariant
            from <= i <= chars@.len(),
            forall|k: int| from <= k < i ==> !class.has(#[trigger] chars@[k]),
        decreases chars@.len() - i,
    {
        i = i + 1;
    }
    proof {
        let s = chars@.skip(from as int);
        assert forall|k: int| 0 <= k < i - from implies !class.has(#[trigger] s[k]) by {
            assert(s[k] == chars@[k + from]);
        }
        lemma_first_of(s, class, i - from);
    }
    i
}

/// What stands before and after the first `c`.
pub fn split_once(s: &str, c: char) -> (r: Option<(String, String)>)
    ensures
        match r {
            Some((before, after)) => text::split_once(s@, c) == Some((before@, after@)),
            None => text::split_once(s@, c) is None,
        },
{
    let chars = to_chars(s);
    let n = find(&chars, 0, Class::Only(c));
    proof {
        assert(chars@.skip(0) =~= chars@);
        assert(chars@.subrange(0, n as int) =~= chars@.take(n as int));
    }
    if n < chars.len() {
        proof {
            assert(chars@.subrange(n + 1, chars@.len() as int) =~= chars@.skip(n + 1));
        }
        Some((from_chars(&chars, 0, n), from_chars(&chars, n + 1, chars.len())))
    } else {
        None
    }
}

/// The pieces of `s` between the occurrences of `c`.
pub fn split(s: &str, c: char) -> (r: Vec<String>)
    ensures
        text::texts(r@) == text::split(s@, c),
        r@.len() > 0,
{
    let chars = to_chars(s);
    let mut out: Vec<String> = Vec::new();
    let mut from: usize = 0;
    proof {
        assert(chars@.skip(0) =~= chars@);
        assert(text::texts(out@) + text::split(chars@, c) =~= text::split(chars@, c));
    }
    loop
        invariant
            from <= chars@.len(),
            text::split(chars@, c) == text::texts(out@) + text::split(chars@.skip(from as int), c),
        ensures
            from <= chars@.len(),
            text::first_of(chars@.skip(from as int), Class::Only(c)) == chars@.len() - from,
            text::split(chars@, c) == text::texts(out@) + text::split(chars@.skip(from as int), c),
        decreases chars@.len() - from,
    {
        let n = find(&chars, from, Class::Only(c));
        if n >= chars.len() {
            break;
        }
        let piece = from_chars(&chars, from, n);
        let ghost before = out@;
        let ghost rest = chars@.skip(from as int);
        out.push(piece);
        proof {
            assert(rest.take(n - from) =~= chars@.subrange(from as int, n as int));
            assert(rest.skip(n - from + 1) =~= chars@.skip(n + 1));
            assert(text::texts(out@) =~= text::texts(before).push(piece@));
            assert(text::split(chars@, c) =~= text::texts(out@) + text::split(
                chars@.skip(n + 1),
                c,
            ));
        }
        from = n + 1;
    }
    let last = from_chars(&chars, from, chars.len());
    let ghost before = out@;
    out.push(last);
    proof {
        assert(chars@.subrange(from as int, chars@.len() as int) =~= chars@.skip(from as int));
        assert(text::texts(out@) =~= text::texts(before).push(last@));
        assert(text::texts(out@) =~= text::split(chars@, c));
    }
    out
}

/// The maximal runs of characters outside the class.
pub fn words(s: &str, class: Class) -> (r: Vec<String>)
    ensures
        text::texts(r@) == text::words(s@, class),
{
    let chars = to_chars(s);
    let mut out: Vec<String> = Vec::new();
    let mut i: usize = 0;
    proof {
        assert(chars@.skip(0) =~= chars@);
        assert(text::texts(out@) + text::words(chars@, class) =~= text::words(chars@, class));
    }
    while i < chars.len()
        invariant
            i <= chars@.len(),
            text::words(chars@, class) == text::texts(out@) + text::words(
                chars@.skip(i as int),
                class,
            ),
        decreases chars@.len() - i,
    {
        let ghost rest = chars@.skip(i as int);
        if class.contains(chars[i]) {
            proof {
                assert(rest.drop_first() =~= chars@.skip(i + 1));
            }
            i = i + 1;
        } else {
            let n = find(&chars, i, class);
            let word = from_chars(&chars, i, n);
            let ghost before = out@;
            out.push(word);
            proof {
                assert(rest[0] == chars@[i as int]);
                assert(text::first_of(rest, class) > 0);
                assert(rest.take(n - i) =~= chars@.subrange(i as int, n as int));
                assert(rest.skip(n - i) =~= chars@.skip(n as int));
                assert(text::texts(out@) =~= text::texts(before).push(word@));
                assert(text::words(chars@, class) =~= text::texts(out@) + text::words(
                    chars@.skip(n as int),
                    class,
                ));
            }
            i = n;
        }
    }
    proof {
        assert(chars@.skip(i as int) =~= Seq::<char>::empty());
        assert(text::texts(out@) =~= text::words(chars@, class));
    }
    out
}

/// The lines of `s`.
pub fn lines(s: &str) -> (r: Vec<String>)
    ensures
        text::texts(r@) == text::lines(s@),
{
    let chars = to_chars(s);
    let mut out: Vec<String> = Vec::new();
    let mut from: usize = 0;
    proof {
        assert(chars@.skip(0) =~= chars@);
        assert(text::texts(out@) + text::lines(chars@) =~= text::lines(chars@));
    }
    while from < chars.len()
        invariant
            from <= chars@.len(),
            text::lines(chars@) == text::texts(out@) + text::lines(chars@.skip(from as int)),
        decreases chars@.len() - from,
    {
        let n = find(&chars, from, Class::Only('\n'));
        let ghost rest = chars@.skip(from as int);
        let ghost before = out@;
        if n < chars.len() {
            let end: usize = if n > from && chars[n - 1] == '\r' {
                n - 1
            } else {
                n
            };
            let line = from_chars(&chars, from, end);
            out.push(line);
            proof {
                let whole = rest.take(n - from);
                assert(whole =~= chars@.subrange(from as int, n as int));
                assert(line@ =~= text::without_return(whole));
                assert(rest.skip(n - from + 1) =~= chars@.skip(n + 1));
                assert(text::texts(out@) =~= text::texts(before).push(line@));
                assert(text::lines(chars@) =~= text::texts(out@) + text::lines(chars@.skip(n + 1)));
            }
            from = n + 1;
        } else {
            let line = from_chars(&chars, from, n);
            out.push(line);
            proof {
                assert(rest =~= line@);
                assert(chars@.skip(n as int) =~= Seq::<char>::empty());
                assert(text::texts(out@) =~= text::texts(before).push(line@));
                assert(text::lines(chars@) =~= text::texts(out@) + text::lines(
                    chars@.skip(n as int),
                ));
            }
            from = n;
        }
    }
    proof {
        assert(chars@.skip(from as int) =~= Seq::<char>::empty());
        assert(text::texts(out@) =~= text::lines(chars@));
    }
    out
}

/// Tells whether the characters of `part` stand in `chars` from `at` on.
fn stands_at(chars: &Vec<char>, at: usize, part: &Vec<char>) -> (r: bool)
    requires
        at + part@.len() <= chars@.len(),
    ensures
        r == (chars@.subrange(at as int, at + part@.len()) == part@),
{
    let total = chars.len();
    let mut k: usize = 0;
    while k < part.len()
        invariant
            k <= part@.len(),
            at + part@.len() <= chars@.len() == total,
            forall|m: int| 0 <= m < k ==> chars@[at + m] == #[trigger] part@[m],
        decreases part@.len() - k,
    {
        if chars[at + k] != part[k] {
            proof {
                assert(chars@.subrange(at as int, at + part@.len())[k as int] != part@[k as int]);
            }
            return false;
        }
        k = k + 1;
    }
    proof {
        assert(chars@.subrange(at as int, at + part@.len()) =~= part@);
    }
    true
}

/// Tells whether `part` occurs in `s`.
pub fn contains(s: &str, part: &str) -> (r: bool)
    ensures
        r == text::has_text(s@, part@),
{
    let chars = to_chars(s);
    let wanted = to_chars(part);
    if wanted.len() > chars.len() {
        return false;
    }
    let mut i: usize = 0;
    while i <= chars.len() - wanted.len()
        invariant
            wanted@.len() <= chars@.len(),
            chars@ == s@,
            wanted@ == part@,
            i <= chars@.len() - wanted@.len() + 1,
            forall|k: int|
                0 <= k < i ==> #[trigger] s@.subrange(k, k + part@.len()) != part@,
        decreases chars@.len() + 1 - i,
    {
        if stands_at(&chars, i, &wanted) {
            return true;
        }
        if i == chars.len() {
            return false;
        }
        i = i + 1;
    }
    false
}

/// Tells whether `s` begins with `part`.
pub fn starts_with(s: &str, part: &str) -> (r: bool)
    ensures
        r == text::begins(s@, part@),
{
    let chars = to_chars(s);
    let wanted = to_chars(part);
    if wanted.len() > chars.len() {
        return false;
    }
    proof {
        assert(chars@.subrange(0, wanted@.len() as int) =~= chars@.take(wanted@.len() as int));
    }
    stands_at(&chars, 0, &wanted)
}

/// Tells whether `s` ends in `part`.
pub fn ends_with(s: &str, part: &str) -> (r: bool)
    ensures
        r == text::ends(s@, part@),
{
    let chars = to_chars(s);
    let wanted = to_chars(part);
    if wanted.len() > chars.len() {
        return false;
    }
    let at: usize = chars.len() - wanted.len();
    proof {
        assert(chars@.subrange(at as int, at + wanted@.len()) =~= chars@.skip(at as int));
    }
    stands_at(&chars, at, &wanted)
}

/// What stands behind `part` in an `s` that begins with it.
pub fn strip_prefix(s: &str, part: &str) -> (r: Option<String>)
    ensures
        match r {
            Some(rest) => text::begins(s@, part@) && rest@ == s@.skip(part@.len() as int),
            None => !text::begins(s@, part@),
        },
{
    let chars = to_chars(s);
    let wanted = to_chars(part);
    if wanted.len() > chars.len() {
        return None;
    }
    proof {
        assert(chars@.subrange(0, wanted@.len() as int) =~= chars@.take(wanted@.len() as int));
        assert(chars@.subrange(wanted@.len() as int, chars@.len() as int) =~= chars@.skip(
            wanted@.len() as int,
        ));
    }
    if stands_at(&chars, 0, &wanted) {
        Some(from_chars(&chars, wanted.len(), chars.len()))
    } else {
        None
    }
}

/// `s` with each `from` turned into `to`.
pub fn replace(s: &str, from: char, to: char) -> (r: String)
    ensures
        r@ == text::replace(s@, from, to),
{
    let chars = to_chars(s);
    let mut out = String::new();
    let mut i: usize = 0;
    while i < chars.len()
        invariant
            i <= chars@.len(),
            out@ == text::replace(chars@, from, to).take(i as int),
        decreases chars@.len() - i,
    {
        let c = chars[i];
        out.push(if c == from { to } else { c });
        proof {
            assert(out@ =~= text::replace(chars@, from, to).take(i + 1));
        }
        i = i + 1;
    }
    proof {
        assert(text::replace(chars@, from, to).take(i as int) =~= text::replace(chars@, from, to));
    }
    out
}

/// The small letter of an ASCII capital, any other character as it is.
fn ascii_lower(c: char) -> (r: char)
    ensures
        r == text::ascii_lower(c),
{
    if 'A' <= c && c <= 'Z' {
        ((c as u8) + 32) as char
    } else {
        c
    }
}

/// Tells whether two strings are equal up to the case of ASCII letters.
pub fn same_ignoring_case(s: &str, t: &str) -> (r: bool)
    ensures
        r == text::same_ignoring_case(s@, t@),
{
    let a = to_chars(s);
    let b = to_chars(t);
    let ghost low_a = s@.map_values(|c: char| text::ascii_lower(c));
    let ghost low_b = t@.map_values(|c: char| text::ascii_lower(c));
    if a.len() != b.len() {
        proof {
            assert(low_a.len() != low_b.len());
        }
        return false;
    }
    let mut i: usize = 0;
    while i < a.len()
        invariant
            i <= a@.len(),
            a@.len() == b@.len(),
            a@ == s@,
            b@ == t@,
            low_a == s@.map_values(|c: char| text::ascii_lower(c)),
            low_b == t@.map_values(|c: char| text::ascii_lower(c)),
            forall|k: int| 0 <= k < i ==> #[trigger] low_a[k] == low_b[k],
        decreases a@.len() - i,
    {
        if ascii_lower(a[i]) != ascii_lower(b[i]) {
            proof {
                assert(low_a[i as int] != low_b[i as int]);
            }
            return false;
        }
        i = i + 1;
    }
    proof {
        assert(low_a =~= low_b);
    }
    true
}

/// A longer sequence of digits does not write down a smaller number.
proof fn lemma_number_grows(s: Seq<char>, i: int)
    requires
        text::all_digits(s),
        0 <= i <= s.len(),
    ensures
        0 <= text::number(s.take(i)) <= text::number(s),
    decreases s.len(),
{
    if i == s.len() {
        assert(s.take(i) =~= s);
        if s.len() > 0 {
            let rest = s.drop_last();
            assert forall|k: int| 0 <= k < rest.len() implies text::is_digit(#[trigger] rest[k]) by {
                assert(rest[k] == s[k]);
            }
            lemma_number_grows(rest, rest.len() as int);
            assert(rest.take(rest.len() as int) =~= rest);
            assert(text::is_digit(s[s.len() - 1]));
        }
    } else {
        let rest = s.drop_last();
        assert forall|k: int| 0 <= k < rest.len() implies text::is_digit(#[trigger] rest[k]) by {
            assert(rest[k] == s[k]);
        }
        lemma_number_grows(rest, i);
        assert(rest.take(i) =~= s.take(i));
        lemma_number_grows(rest, rest.len() as int);
        assert(rest.take(rest.len() as int) =~= rest);
        assert(text::is_digit(s[s.len() - 1]));
    }
}

/// Reads an unsigned number of 64 bits.
pub fn parse_u64(s: &str) -> (r: Option<u64>)
    ensures
        r == text::u64_of(s@),
{
    let chars = to_chars(s);
    let start: usize = if chars.len() > 0 && chars[0] == '+' {
        1
    } else {
        0
    };
    let ghost digits = if s@.len() > 0 && s@[0] == '+' {
        s@.drop_first()
    } else {
        s@
    };
    proof {
        assert(digits =~= chars@.skip(start as int));
    }
    if start == chars.len() {
        return None;
    }
    let mut value: u64 = 0;
    let mut i: usize = start;
    while i < chars.len()
        invariant
            start <= i <= chars@.len(),
            digits == chars@.skip(start as int),
            digits.len() > 0,
            s@ == chars@,
            digits == (if s@.len() > 0 && s@[0] == '+' {
                s@.drop_first()
            } else {
                s@
            }),
            forall|k: int| 0 <= k < i - start ==> text::is_digit(#[trigger] digits[k]),
            value == text::number(digits.take(i - start)),
        decreases chars@.len() - i,
    {
        let c = chars[i];
        proof {
            assert(digits[i - start] == c);
        }
        if c < '0' || c > '9' {
            return None;
        }
        let digit: u64 = (c as u64) - ('0' as u64);
        proof {
            let so_far = digits.take(i - start + 1);
            assert(so_far.drop_last() =~= digits.take(i - start));
            assert(text::number(so_far) == 10 * value + digit);
            if text::all_digits(digits) {
                lemma_number_grows(digits, i - start + 1);
            }
        }
        match value.checked_mul(10) {
            None => {
                return None;
            },
            Some(tens) => match tens.checked_add(digit) {
                None => {
                    return None;
                },
                Some(sum) => {
                    value = sum;
                },
            },
        }
        i = i + 1;
    }
    proof {
        assert(digits.take(i - start) =~= digits);
    }
    Some(value)
}

/// The decimal notation of a number.
pub fn decimal(n: u64) -> (r: String)
    ensures
        r@ == text::decimal(n as nat),
    decreases n,
{
    let last = match n % 10 {
        0 => '0',
        1 => '1',
        2 => '2',
        3 => '3',
        4 => '4',
        5 => '5',
        6 => '6',
        7 => '7',
        8 => '8',
        _ => '9',
    };
    if n < 10 {
        let mut out = String::new();
        out.push(last);
        proof {
            assert(out@ =~= seq![last]);
        }
        out
    } else {
        let mut out = decimal(n / 10);
        out.push(last);
        out
    }
}

/// Reading back the decimal notation of a number gives the number.
pub proof fn lemma_decimal_is_read_back(n: nat)
    ensures
        text::decimal(n).len() > 0,
        text::all_digits(text::decimal(n)),
        text::number(text::decimal(n)) == n,
        n <= u64::MAX ==> text::u64_of(text::decimal(n)) == Some(n as u64),
    decreases n,
{
    let s = text::decimal(n);
    if n < 10 {
        assert(s.drop_last() =~= Seq::<char>::empty());
        assert(text::number(s.drop_last()) == 0);
    } else {
        lemma_decimal_is_read_back(n / 10);
        assert(s.drop_last() =~= text::decimal(n / 10));
        assert forall|i: int| 0 <= i < s.len() implies text::is_digit(#[trigger] s[i]) by {
            if i < s.len() - 1 {
                assert(s[i] == text::decimal(n / 10)[i]);
            }
        }
    }
    assert(text::is_digit(s[0]));
}

/// Trimming takes the characters of the class off the ends, all of them and no others.
pub proof fn law_trimming_takes_the_ends(
    before: Seq<char>,
    s: Seq<char>,
    after: Seq<char>,
    class: Class,
)
    requires
        forall|i: int| 0 <= i < before.len() ==> class.has(#[trigger] before[i]),
        forall|i: int| 0 <= i < after.len() ==> class.has(#[trigger] after[i]),
        s.len() > 0 ==> !class.has(s[0]) && !class.has(s.last()),
    ensures
        text::trim(before + s + after, class) == s,
        text::trim_start(before + s, class) == s,
        text::trim_end(s + after, class) == s,
{
    lemma_front_is_trimmed(before, s, class);
    lemma_end_is_trimmed(s, after, class);
    let all = before + s + after;
    assert(all =~= before + (s + after));
    if s.len() > 0 {
        assert((s + after)[0] == s[0]);
        lemma_front_is_trimmed(before, s + after, class);
    } else {
        assert forall|k: int| 0 <= k < all.len() implies class.has(#[trigger] all[k]) by {
            if k < before.len() {
                assert(all[k] == before[k]);
            } else {
                assert(all[k] == after[k - before.len()]);
            }
        }
        lemma_trim_start_from(all, class, all.len() as int);
        assert(all.skip(all.len() as int) =~= s);
    }
}

/// What stands before a text is trimmed.
proof fn lemma_front_is_trimmed(before: Seq<char>, s: Seq<char>, class: Class)
    requires
        forall|i: int| 0 <= i < before.len() ==> class.has(#[trigger] before[i]),
        s.len() > 0 ==> !class.has(s[0]),
    ensures
        text::trim_start(before + s, class) == s,
{
    let all = before + s;
    let n = before.len() as int;
    assert forall|k: int| 0 <= k < n implies class.has(#[trigger] all[k]) by {
        assert(all[k] == before[k]);
    }
    if s.len() > 0 {
        assert(all[n] == s[0]);
    }
    lemma_trim_start_from(all, class, n);
    assert(all.skip(n) =~= s);
}

/// What stands behind a text is trimmed.
pub proof fn lemma_end_is_trimmed(s: Seq<char>, after: Seq<char>, class: Class)
    requires
        forall|i: int| 0 <= i < after.len() ==> class.has(#[trigger] after[i]),
        s.len() > 0 ==> !class.has(s.last()),
    ensures
        text::trim_end(s + after, class) == s,
{
    let all = s + after;
    let n = s.len() as int;
    assert forall|k: int| n <= k < all.len() implies class.has(#[trigger] all[k]) by {
        assert(all[k] == after[k - n]);
    }
    if n > 0 {
        assert(all[n - 1] == s[n - 1]);
    }
    lemma_trim_end_to(all, class, n);
    assert(all.take(n) =~= s);
}

/// A text is split at each separator: what stands before the first one is the first piece, and
/// the other pieces are those of what stands behind it.
pub proof fn law_splitting_at_a_separator(first: Seq<char>, c: char, rest: Seq<char>)
    requires
        !first.contains(c),
    ensures
        text::split(first, c) == seq![first],
        text::split(first + seq![c] + rest, c) == seq![first] + text::split(rest, c),
        text::split_once(first, c) is None,
        text::split_once(first + seq![c] + rest, c) == Some((first, rest)),
{
    let class = Class::Only(c);
    let n = first.len() as int;
    assert forall|k: int| 0 <= k < n implies !class.has(#[trigger] first[k]) by {}
    lemma_first_of(first, class, n);
    let all = first + seq![c] + rest;
    assert(all[n] == c);
    assert forall|k: int| 0 <= k < n implies !class.has(#[trigger] all[k]) by {
        assert(all[k] == first[k]);
    }
    lemma_first_of(all, class, n);
    assert(all.take(n) =~= first);
    assert(all.skip(n + 1) =~= rest);
}

/// A line ends at a line feed, and a carriage return before that belongs to the end. What
/// stands behind the last line feed is a line if there is anything.
pub proof fn law_lines_end_at_line_feeds(line: Seq<char>, rest: Seq<char>)
    requires
        !line.contains('\n'),
    ensures
        text::lines(Seq::empty()) == Seq::<Seq<char>>::empty(),
        line.len() > 0 ==> text::lines(line) == seq![line],
        line.len() == 0 || line.last() != '\r' ==> text::lines(line + seq!['\n'] + rest) == seq![
            line,
        ] + text::lines(rest),
        text::lines(line + seq!['\r', '\n'] + rest) == seq![line] + text::lines(rest),
{
    let class = Class::Only('\n');
    let n = line.len() as int;
    assert forall|k: int| 0 <= k < n implies !class.has(#[trigger] line[k]) by {}
    lemma_first_of(line, class, n);
    let plain = line + seq!['\n'] + rest;
    assert(plain[n] == '\n');
    assert forall|k: int| 0 <= k < n implies !class.has(#[trigger] plain[k]) by {
        assert(plain[k] == line[k]);
    }
    lemma_first_of(plain, class, n);
    assert(plain.take(n) =~= line);
    assert(plain.skip(n + 1) =~= rest);
    let both = line + seq!['\r', '\n'] + rest;
    assert(both[n] == '\r' && both[n + 1] == '\n');
    assert forall|k: int| 0 <= k < n + 1 implies !class.has(#[trigger] both[k]) by {
        if k < n {
            assert(both[k] == line[k]);
        }
    }
    lemma_first_of(both, class, n + 1);
    assert(both.take(n + 1) =~= line.push('\r'));
    assert(line.push('\r').drop_last() =~= line);
    assert(both.skip(n + 2) =~= rest);
}

/// Words are what stands between the characters of the class, however many these are.
pub proof fn law_words_stand_between_gaps(
    gap: Seq<char>,
    word: Seq<char>,
    rest: Seq<char>,
    class: Class,
)
    requires
        forall|i: int| 0 <= i < gap.len() ==> class.has(#[trigger] gap[i]),
        word.len() > 0,
        forall|i: int| 0 <= i < word.len() ==> !class.has(#[trigger] word[i]),
        rest.len() > 0 ==> class.has(rest[0]),
    ensures
        text::words(gap, class) == Seq::<Seq<char>>::empty(),
        text::words(gap + word + rest, class) == seq![word] + text::words(rest, class),
    decreases gap.len(),
{
    let all = gap + word + rest;
    if gap.len() > 0 {
        let less = gap.drop_first();
        assert forall|i: int| 0 <= i < less.len() implies class.has(#[trigger] less[i]) by {
            assert(less[i] == gap[i + 1]);
        }
        law_words_stand_between_gaps(less, word, rest, class);
        assert(all[0] == gap[0]);
        assert(all.drop_first() =~= less + word + rest);
    } else {
        let n = word.len() as int;
        assert(all =~= word + rest);
        assert forall|k: int| 0 <= k < n implies !class.has(#[trigger] all[k]) by {
            assert(all[k] == word[k]);
        }
        if rest.len() > 0 {
            assert(all[n] == rest[0]);
        }
        lemma_first_of(all, class, n);
        assert(all.take(n) =~= word);
        assert(all.skip(n) =~= rest);
        assert(all[0] == word[0]);
    }
}

/// What a text begins with, ends in and has in it.
pub proof fn law_parts_of_a_text(before: Seq<char>, part: Seq<char>, after: Seq<char>)
    ensures
        text::begins(part + after, part),
        text::ends(before + part, part),
        text::has_text(before + part + after, part),
        text::begins(before, part) ==> before == part + before.skip(part.len() as int),
        text::ends(before, part) ==> before == before.take(before.len() - part.len()) + part,
        text::has_text(before, part) ==> exists|i: int|
            0 <= i <= before.len() - part.len() && #[trigger] before.skip(i).take(
                part.len() as int,
            ) == part,
{
    assert((part + after).take(part.len() as int) =~= part);
    let ended = before + part;
    assert(ended.skip(ended.len() - part.len()) =~= part);
    let all = before + part + after;
    let n = before.len() as int;
    assert(all.subrange(n, n + part.len()) =~= part);
    if text::begins(before, part) {
        assert(before =~= before.take(part.len() as int) + before.skip(part.len() as int));
    }
    if text::ends(before, part) {
        assert(before =~= before.take(before.len() - part.len()) + before.skip(
            before.len() - part.len(),
        ));
    }
    if text::has_text(before, part) {
        let i = choose|i: int|
            0 <= i && i + part.len() <= before.len() && #[trigger] before.subrange(
                i,
                i + part.len(),
            ) == part;
        assert(before.skip(i).take(part.len() as int) =~= before.subrange(i, i + part.len()));
    }
}

/// Replacing changes one character wherever it stands and leaves all others as they are. Texts
/// are the same but for case if and only if each character is, where a capital of ASCII counts
/// as its small letter.
pub proof fn law_characters_one_by_one(s: Seq<char>, t: Seq<char>, from: char, to: char)
    ensures
        text::replace(s, from, to).len() == s.len(),
        forall|i: int|
            0 <= i < s.len() ==> #[trigger] text::replace(s, from, to)[i] == if s[i] == from {
                to
            } else {
                s[i]
            },
        text::same_ignoring_case(s, t) <==> s.len() == t.len() && forall|i: int|
            0 <= i < s.len() ==> #[trigger] s[i] == t[i] || ('A' <= s[i] <= 'Z' && t[i] as u32
                == s[i] as u32 + 32) || ('A' <= t[i] <= 'Z' && s[i] as u32 == t[i] as u32 + 32),
{
    let a = s.map_values(|c: char| text::ascii_lower(c));
    let b = t.map_values(|c: char| text::ascii_lower(c));
    if text::same_ignoring_case(s, t) {
        assert(a.len() == b.len());
        assert forall|i: int| 0 <= i < s.len() implies #[trigger] s[i] == t[i] || ('A' <= s[i]
            <= 'Z' && t[i] as u32 == s[i] as u32 + 32) || ('A' <= t[i] <= 'Z' && s[i] as u32
            == t[i] as u32 + 32) by {
            assert(a[i] == text::ascii_lower(s[i]));
            assert(b[i] == text::ascii_lower(t[i]));
            assert(a[i] == b[i]);
            lemma_lower(s[i], t[i]);
        }
    }
    if s.len() == t.len() && forall|i: int|
        0 <= i < s.len() ==> #[trigger] s[i] == t[i] || ('A' <= s[i] <= 'Z' && t[i] as u32
            == s[i] as u32 + 32) || ('A' <= t[i] <= 'Z' && s[i] as u32 == t[i] as u32 + 32) {
        assert forall|i: int| 0 <= i < a.len() implies a[i] == b[i] by {
            assert(s[i] == t[i] || ('A' <= s[i] <= 'Z' && t[i] as u32 == s[i] as u32 + 32) || ('A'
                <= t[i] <= 'Z' && s[i] as u32 == t[i] as u32 + 32));
            lemma_lower(s[i], t[i]);
        }
        assert(a =~= b);
    }
}

/// When two characters have the same small letter.
proof fn lemma_lower(c: char, d: char)
    ensures
        text::ascii_lower(c) == text::ascii_lower(d) <==> c == d || ('A' <= c <= 'Z' && d as u32
            == c as u32 + 32) || ('A' <= d <= 'Z' && c as u32 == d as u32 + 32),
{
    if 'A' <= c <= 'Z' {
        assert(text::ascii_lower(c) as u32 == c as u32 + 32);
    }
    if 'A' <= d <= 'Z' {
        assert(text::ascii_lower(d) as u32 == d as u32 + 32);
    }
}

/// A number is read where, and only where, all is digits but for one plus sign before them, and
/// it fits. Digits are worth more the further they are from the end.
pub proof fn law_numbers_are_read(digits: Seq<char>, last: char)
    requires
        text::all_digits(digits),
        '0' <= last <= '9',
    ensures
        text::number(digits.push(last)) == 10 * text::number(digits) + (last as int - 48),
        text::number(Seq::empty()) == 0,
        digits.len() > 0 ==> text::u64_of(digits) == (if text::number(digits) <= u64::MAX {
            Some(text::number(digits) as u64)
        } else {
            None
        }) && text::u64_of(seq!['+'] + digits) == text::u64_of(digits),
        text::u64_of(Seq::empty()) is None,
        text::u64_of(seq!['+']) is None,
        forall|s: Seq<char>, i: int|
            0 <= i < s.len() && !('0' <= #[trigger] s[i] <= '9') && (i > 0 || s[i] != '+')
                ==> text::u64_of(s) is None,
{
    assert(digits.push(last).drop_last() =~= digits);
    assert(digits.push(last).last() == last);
    let signed = seq!['+'] + digits;
    assert(signed.drop_first() =~= digits);
    assert(signed[0] == '+');
    if digits.len() > 0 {
        assert(text::is_digit(digits[0]));
    }
    assert(seq!['+'].drop_first() =~= Seq::<char>::empty());
    assert forall|s: Seq<char>, i: int|
        0 <= i < s.len() && !('0' <= #[trigger] s[i] <= '9') && (i > 0 || s[i] != '+') implies
        text::u64_of(s) is None by {
        if s[0] == '+' {
            let rest = s.drop_first();
            assert(rest[i - 1] == s[i]);
            assert(!text::all_digits(rest)) by {
                if text::all_digits(rest) {
                    assert(text::is_digit(rest[i - 1]));
                }
            }
        } else if text::all_digits(s) {
            assert(text::is_digit(s[i]));
        }
    }
}

/// The classes of characters that are taken off or split at.
pub proof fn law_classes_of_space(c: char)
    ensures
        Class::LineEnd.has(c) <==> c == '\n' || c == '\r',
        Class::AsciiSpace.has(c) <==> c == ' ' || c == '\t' || c == '\n' || c == '\r' || c
            == '\u{c}',
        Class::AsciiSpace.has(c) ==> Class::Space.has(c),
        Class::Space.has(c) && c as u32 <= 127 ==> Class::AsciiSpace.has(c) || c == '\u{b}',
        Class::Space.has('\u{b}') && Class::Space.has('\u{85}') && Class::Space.has('\u{a0}'),
        Class::Space.has('\u{1680}'),
        Class::Space.has('\u{2000}') && Class::Space.has('\u{2005}') && Class::Space.has('\u{200a}'),
        Class::Space.has('\u{2028}') && Class::Space.has('\u{2029}'),
        Class::Space.has('\u{202f}') && Class::Space.has('\u{205f}') && Class::Space.has('\u{3000}'),
        !Class::Space.has('\u{180e}') && !Class::Space.has('\u{200b}'),
        !Class::Space.has('\u{feff}'),
{
}

/// A number is written in digits without a zero before them, and is read as itself.
pub proof fn law_decimal_has_no_leading_zero(n: nat)
    ensures
        text::decimal(n).len() > 0,
        forall|i: int|
            0 <= i < text::decimal(n).len() ==> '0' <= #[trigger] text::decimal(n)[i] <= '9',
        n > 0 ==> text::decimal(n)[0] != '0',
        n < 10 ==> text::decimal(n).len() == 1,
        text::number(text::decimal(n)) == n,
    decreases n,
{
    lemma_decimal_is_read_back(n);
    assert forall|i: int| 0 <= i < text::decimal(n).len() implies '0' <= #[trigger] text::decimal(
        n,
    )[i] <= '9' by {
        assert(text::is_digit(text::decimal(n)[i]));
    }
    if n >= 10 {
        law_decimal_has_no_leading_zero(n / 10);
        assert(text::decimal(n)[0] == text::decimal(n / 10)[0]);
    } else if n > 0 {
        assert(text::decimal(n)[0] as u32 == n + 48);
    }
}

} // verus!
