//! Text: comparing, searching, splitting and building strings.

use vstd::prelude::*;
use vstd::string::*;

verus! {

/// `String::push`: appends one character at the end.
pub assume_specification[ String::push ](s: &mut String, c: char)
    ensures
        final(s)@ == old(s)@.push(c),
;

/// `String::push_str`: appends a string slice at the end.
pub assume_specification[ String::push_str ](s: &mut String, t: &str)
    ensures
        final(s)@ == old(s)@ + t@,
;

/// The characters of a string slice.
pub fn chars_of(s: &str) -> (r: Vec<char>)
    ensures
        r@ == s@,
{
    let mut out: Vec<char> = Vec::new();
    for c in it: s.chars()
        invariant
            it.seq() == s@,
            out@ == s@.take(it.index()),
    {
        out.push(c);
    }
    proof {
        assert(s@.take(s@.len() as int) =~= s@);
    }
    out
}

/// The string made of the characters from one place up to another.
pub fn slice_of(v: &Vec<char>, from: usize, to: usize) -> (r: String)
    requires
        from <= to <= v.len(),
    ensures
        r@ == v@.subrange(from as int, to as int),
{
    let mut out: String = String::new();
    let mut i: usize = from;
    while i < to
        invariant
            from <= i <= to <= v.len(),
            out@ == v@.subrange(from as int, i as int),
        decreases to - i,
    {
        out.push(v[i]);
        proof {
            assert(v@.subrange(from as int, i as int).push(v@[i as int]) =~= v@.subrange(
                from as int,
                i + 1,
            ));
        }
        i = i + 1;
    }
    out
}

/// Whether two character lists agree.
pub fn same_chars(a: &Vec<char>, b: &Vec<char>) -> (r: bool)
    ensures
        r == (a@ == b@),
{
    if a.len() != b.len() {
        return false;
    }
    let mut i: usize = 0;
    while i < a.len()
        invariant
            i <= a.len(),
            a.len() == b.len(),
            forall|j: int| 0 <= j < i ==> a@[j] == b@[j],
        decreases a.len() - i,
    {
        if a[i] != b[i] {
            return false;
        }
        i = i + 1;
    }
    proof {
        assert(a@ =~= b@);
    }
    true
}

/// Whether two string slices hold the same text.
pub fn same(a: &str, b: &str) -> (r: bool)
    ensures
        r == (a@ == b@),
{
    same_chars(&chars_of(a), &chars_of(b))
}

/// Whether `p` stands in `s` from place `at` on.
pub open spec fn stands_at(s: Seq<char>, p: Seq<char>, at: int) -> bool {
    &&& 0 <= at
    &&& at + p.len() <= s.len()
    &&& s.subrange(at, at + p.len()) == p
}

/// Whether `p` stands in `s` from place `at` on.
pub fn found_at(s: &Vec<char>, p: &Vec<char>, at: usize) -> (r: bool)
    ensures
        r == stands_at(s@, p@, at as int),
{
    if at > s.len() || p.len() > s.len() - at {
        return false;
    }
    let mut i: usize = 0;
    while i < p.len()
        invariant
            i <= p.len(),
            at + p.len() <= s.len(),
            forall|j: int| 0 <= j < i ==> s@[at + j] == p@[j],
        decreases p.len() - i,
    {
        if s[at + i] != p[i] {
            proof {
                assert(s@.subrange(at as int, at + p.len())[i as int] != p@[i as int]);
            }
            return false;
        }
        i = i + 1;
    }
    proof {
        assert(s@.subrange(at as int, at + p.len()) =~= p@);
    }
    true
}

/// Whether `s` begins with `p`.
pub open spec fn begins(s: Seq<char>, p: Seq<char>) -> bool {
    stands_at(s, p, 0)
}

/// Whether a string slice begins with another.
pub fn starts_with(s: &str, p: &str) -> (r: bool)
    ensures
        r == begins(s@, p@),
{
    found_at(&chars_of(s), &chars_of(p), 0)
}

/// What follows the prefix `p` in `s`, if `s` begins with it.
pub fn strip_prefix(s: &str, p: &str) -> (r: Option<String>)
    ensures
        r is Some <==> begins(s@, p@),
        r matches Some(rest) ==> rest@ == s@.skip(p@.len() as int),
{
    let v: Vec<char> = chars_of(s);
    let w: Vec<char> = chars_of(p);
    if found_at(&v, &w, 0) {
        proof {
            assert(v@.subrange(w.len() as int, v.len() as int) =~= s@.skip(p@.len() as int));
        }
        Some(slice_of(&v, w.len(), v.len()))
    } else {
        None
    }
}

/// The first place from `from` on at which `p` stands in `s`.
pub open spec fn place_from(s: Seq<char>, p: Seq<char>, from: int) -> Option<int>
    decreases s.len() - from + 1,
{
    if from + p.len() > s.len() {
        None
    } else if stands_at(s, p, from) {
        Some(from)
    } else {
        place_from(s, p, from + 1)
    }
}

/// The first place at which a text stands in another.
pub fn find_text(s: &Vec<char>, p: &Vec<char>, from: usize) -> (r: Option<usize>)
    requires
        from <= s.len(),
    ensures
        match r {
            Some(i) => place_from(s@, p@, from as int) == Some(i as int) && from <= i && i
                + p.len() <= s.len(),
            None => place_from(s@, p@, from as int) is None,
        },
{
    let mut i: usize = from;
    while i < s.len() && p.len() <= s.len() - i
        invariant
            from <= i <= s.len(),
            place_from(s@, p@, from as int) == place_from(s@, p@, i as int),
        decreases s.len() - i,
    {
        if found_at(s, p, i) {
            return Some(i);
        }
        i = i + 1;
    }
    if p.len() == 0 {
        assert(s@.subrange(i as int, i as int) =~= p@);
        return Some(i);
    }
    None
}

/// What stands between the first and the second occurrence of a separator, or after the first
/// where there is only one.
pub open spec fn second_part_of(s: Seq<char>, sep: Seq<char>) -> Option<Seq<char>> {
    match place_from(s, sep, 0) {
        Some(i) => {
            let rest = s.skip(i + sep.len());
            match place_from(rest, sep, 0) {
                Some(j) => Some(rest.take(j)),
                None => Some(rest),
            }
        },
        None => None,
    }
}

/// The second part of a text that a separator divides.
pub fn second_part(s: &str, sep: &str) -> (r: Option<String>)
    ensures
        match r {
            Some(t) => second_part_of(s@, sep@) == Some(t@),
            None => second_part_of(s@, sep@) is None,
        },
{
    let v: Vec<char> = chars_of(s);
    let w: Vec<char> = chars_of(sep);
    match find_text(&v, &w, 0) {
        Some(i) => {
            let start: usize = i + w.len();
            let rest: String = slice_of(&v, start, v.len());
            assert(rest@ =~= s@.skip(start as int));
            let tail: Vec<char> = chars_of(rest.as_str());
            match find_text(&tail, &w, 0) {
                Some(j) => {
                    let part: String = slice_of(&tail, 0, j);
                    assert(part@ =~= rest@.take(j as int));
                    Some(part)
                },
                None => Some(rest),
            }
        },
        None => None,
    }
}

/// The first place of a character, from a given place on.
pub fn find_char(v: &Vec<char>, c: char, from: usize) -> (r: Option<usize>)
    requires
        from <= v.len(),
    ensures
        r matches Some(i) ==> from <= i < v.len() && v@[i as int] == c && forall|j: int|
            from <= j < i ==> v@[j] != c,
        r is None ==> forall|j: int| from <= j < v.len() ==> v@[j] != c,
{
    let mut i: usize = from;
    while i < v.len()
        invariant
            from <= i <= v.len(),
            forall|j: int| from <= j < i ==> v@[j] != c,
        decreases v.len() - i,
    {
        if v[i] == c {
            return Some(i);
        }
        i = i + 1;
    }
    None
}

/// The text before and after the first `c`, if there is one.
pub open spec fn cut(s: Seq<char>, c: char) -> Option<(Seq<char>, Seq<char>)> {
    if s.contains(c) {
        let i = s.index_of_first(c)->0;
        Some((s.take(i), s.skip(i + 1)))
    } else {
        None
    }
}

/// Cuts a string at the first occurrence of a character.
pub fn split_once(s: &str, c: char) -> (r: Option<(String, String)>)
    ensures
        match r {
            Some((a, b)) => cut(s@, c) == Some((a@, b@)),
            None => cut(s@, c) is None,
        },
{
    let v: Vec<char> = chars_of(s);
    match find_char(&v, c, 0) {
        Some(i) => {
            proof {
                assert(s@[i as int] == c);
                s@.index_of_first_ensures(c);
                let k = s@.index_of_first(c)->0;
                assert(k == i);
                assert(v@.subrange(0, i as int) =~= s@.take(k));
                assert(v@.subrange(i + 1, v.len() as int) =~= s@.skip(k + 1));
            }
            Some((slice_of(&v, 0, i), slice_of(&v, i + 1, v.len())))
        },
        None => None,
    }
}

/// Whether a character is white space.
pub open spec fn space(c: char) -> bool {
    let n = c as u32;
    ||| 9 <= n <= 13
    ||| n == 0x20
    ||| n == 0x85
    ||| n == 0xa0
    ||| n == 0x1680
    ||| 0x2000 <= n <= 0x200a
    ||| n == 0x2028
    ||| n == 0x2029
    ||| n == 0x202f
    ||| n == 0x205f
    ||| n == 0x3000
}

fn is_space(c: char) -> (r: bool)
    ensures
        r == space(c),
{
    let n: u32 = c as u32;
    (9 <= n && n <= 13) || n == 0x20 || n == 0x85 || n == 0xa0 || n == 0x1680 || (0x2000 <= n && n
        <= 0x200a) || n == 0x2028 || n == 0x2029 || n == 0x202f || n == 0x205f || n == 0x3000
}

/// A text without the white space at its start.
pub open spec fn trim_start_of(s: Seq<char>) -> Seq<char>
    decreases s.len(),
{
    if s.len() > 0 && space(s[0]) {
        trim_start_of(s.skip(1))
    } else {
        s
    }
}

/// A text without the white space at its end.
pub open spec fn trim_end_of(s: Seq<char>) -> Seq<char>
    decreases s.len(),
{
    if s.len() > 0 && space(s.last()) {
        trim_end_of(s.drop_last())
    } else {
        s
    }
}

/// A text without the white space at both ends.
pub open spec fn trim_of(s: Seq<char>) -> Seq<char> {
    trim_end_of(trim_start_of(s))
}

/// Removes the white space at both ends.
pub fn trimmed(s: &str) -> (r: String)
    ensures
        r@ == trim_of(s@),
{
    let v: Vec<char> = chars_of(s);
    let mut from: usize = 0;
    proof {
        assert(v@.skip(0) =~= s@);
    }
    while from < v.len() && is_space(v[from])
        invariant
            from <= v.len(),
            v@ == s@,
            trim_start_of(s@) == trim_start_of(v@.skip(from as int)),
        decreases v.len() - from,
    {
        proof {
            assert(v@.skip(from as int)[0] == v@[from as int]);
            assert(v@.skip(from as int).skip(1) =~= v@.skip(from + 1));
        }
        from = from + 1;
    }
    proof {
        if from < v.len() {
            assert(v@.skip(from as int)[0] == v@[from as int]);
        }
        assert(trim_start_of(s@) == v@.skip(from as int));
    }
    let mut to: usize = v.len();
    proof {
        assert(v@.subrange(from as int, to as int) =~= v@.skip(from as int));
    }
    while to > from && is_space(v[to - 1])
        invariant
            from <= to <= v.len(),
            trim_of(s@) == trim_end_of(v@.subrange(from as int, to as int)),
        decreases to,
    {
        proof {
            assert(v@.subrange(from as int, to as int).last() == v@[to - 1]);
            assert(v@.subrange(from as int, to as int).drop_last() =~= v@.subrange(
                from as int,
                to - 1,
            ));
        }
        to = to - 1;
    }
    proof {
        if to > from {
            assert(v@.subrange(from as int, to as int).last() == v@[to - 1]);
        }
    }
    slice_of(&v, from, to)
}

/// The parts of a text between occurrences of a character; without one, the whole text.
pub open spec fn parts_of(s: Seq<char>, c: char) -> Seq<Seq<char>>
    decreases s.len(),
{
    match cut(s, c) {
        Some((head, tail)) => if tail.len() < s.len() {
            seq![head] + parts_of(tail, c)
        } else {
            seq![s]
        },
        None => seq![s],
    }
}

/// The strings as seen by contracts.
pub open spec fn texts(v: Seq<String>) -> Seq<Seq<char>> {
    Seq::new(v.len(), |i: int| v[i]@)
}

/// Splits a text at every occurrence of a character.
pub fn split_chars(s: &str, c: char) -> (r: Vec<String>)
    ensures
        texts(r@) == parts_of(s@, c),
        r.len() == parts_of(s@, c).len(),
        forall|i: int| 0 <= i < r.len() ==> (#[trigger] r@[i])@ == parts_of(s@, c)[i],
{
    let mut out: Vec<String> = Vec::new();
    let mut rest: String = s.to_owned();
    loop
        invariant
            texts(out@) + parts_of(rest@, c) == parts_of(s@, c),
        decreases rest@.len(),
    {
        match split_once(rest.as_str(), c) {
            Some((head, tail)) => {
                proof {
                    rest@.index_of_first_ensures(c);
                }
                let ghost before = texts(out@);
                let ghost was = rest@;
                let ghost h = head@;
                out.push(head);
                rest = tail;
                proof {
                    assert(texts(out@) =~= before.push(h));
                    assert(before.push(h) + parts_of(rest@, c) =~= before + (seq![h] + parts_of(
                        rest@,
                        c,
                    )));
                }
            },
            None => {
                let ghost before = texts(out@);
                let ghost last = rest@;
                out.push(rest);
                proof {
                    assert(texts(out@) =~= before.push(last));
                    assert(before.push(last) =~= before + seq![last]);
                    assert forall|i: int| 0 <= i < out.len() implies (#[trigger] out@[i])@
                        == parts_of(s@, c)[i] by {
                        assert(texts(out@)[i] == out@[i]@);
                    }
                }
                return out;
            },
        }
    }
}

/// The value of a digit.
pub open spec fn digit_value(c: char) -> Option<int> {
    let n = c as u32;
    if 48 <= n <= 57 {
        Some(n - 48)
    } else {
        None
    }
}

/// The value of a text made of digits alone.
pub open spec fn digits_value(s: Seq<char>) -> Option<int>
    decreases s.len(),
{
    if s.len() == 0 {
        Some(0)
    } else {
        match (digits_value(s.drop_last()), digit_value(s.last())) {
            (Some(v), Some(d)) => Some(v * 10 + d),
            _ => None,
        }
    }
}

/// The number a text stands for: at least one digit, after an optional plus sign, and no more
/// than the limit.
pub open spec fn number(s: Seq<char>, limit: int) -> Option<int> {
    let body = if s.len() > 0 && s[0] == '+' {
        s.skip(1)
    } else {
        s
    };
    if body.len() == 0 {
        None
    } else {
        match digits_value(body) {
            Some(v) => if v <= limit {
                Some(v)
            } else {
                None
            },
            None => None,
        }
    }
}

proof fn lemma_digits_prefix(s: Seq<char>, k: int)
    requires
        0 <= k <= s.len(),
    ensures
        digits_value(s.take(k)) is None ==> digits_value(s) is None,
        (digits_value(s.take(k)) matches Some(v) && digits_value(s) matches Some(w)) ==> 0
            <= digits_value(s.take(k))->0 <= digits_value(s)->0,
    decreases s.len(),
{
    if k == s.len() {
        assert(s.take(k) =~= s);
        if s.len() > 0 {
            lemma_digits_prefix(s.drop_last(), k - 1);
        }
    } else {
        lemma_digits_prefix(s.drop_last(), k);
        assert(s.drop_last().take(k) =~= s.take(k));
    }
}

/// Reads a number no larger than a limit.
pub fn parse_number(s: &str, limit: u64) -> (r: Option<u64>)
    ensures
        match r {
            Some(n) => number(s@, limit as int) == Some(n as int),
            None => number(s@, limit as int) is None,
        },
        r matches Some(n) ==> n <= limit,
{
    let v: Vec<char> = chars_of(s);
    let start: usize = if v.len() > 0 && v[0] == '+' {
        1
    } else {
        0
    };
    let ghost body = v@.skip(start as int);
    proof {
        assert(v@.skip(0) =~= v@);
    }
    if start == v.len() {
        return None;
    }
    let mut value: u128 = 0;
    let mut i: usize = start;
    proof {
        assert(body.take(0) =~= Seq::empty());
    }
    while i < v.len()
        invariant
            start <= i <= v.len(),
            start < v.len(),
            v@ == s@,
            start == if s@.len() > 0 && s@[0] == '+' {
                1int
            } else {
                0
            },
            body == v@.skip(start as int),
            v@.skip(0) == v@,
            digits_value(body.take(i - start)) == Some(value as int),
            value <= limit,
        decreases v.len() - i,
    {
        let n: u32 = v[i] as u32;
        proof {
            let k = i - start;
            assert(body.take(k + 1).drop_last() =~= body.take(k));
            assert(body.take(k + 1).last() == v@[i as int]);
            lemma_digits_prefix(body, k + 1);
        }
        if n < 48 || n > 57 {
            return None;
        }
        value = value * 10 + (n - 48) as u128;
        if value > limit as u128 {
            return None;
        }
        i = i + 1;
    }
    proof {
        assert(body.take(v.len() - start) =~= body);
    }
    Some(value as u64)
}

/// The character for a digit.
pub open spec fn digit(d: int) -> char {
    (48 + d) as char
}

/// A number written in decimal.
pub open spec fn decimal(n: nat) -> Seq<char>
    decreases n,
{
    if n < 10 {
        seq![digit(n as int)]
    } else {
        decimal(n / 10).push(digit((n % 10) as int))
    }
}

fn digit_char(d: u8) -> (r: char)
    requires
        d < 10,
    ensures
        r == digit(d as int),
{
    (48 + d) as char
}

/// Appends a number in decimal.
pub fn push_decimal(out: &mut String, n: u64)
    ensures
        final(out)@ == old(out)@ + decimal(n as nat),
    decreases n,
{
    if n >= 10 {
        push_decimal(out, n / 10);
    }
    out.push(digit_char((n % 10) as u8));
    proof {
        if n >= 10 {
            assert(out@ =~= old(out)@ + decimal(n as nat));
        } else {
            assert(out@ =~= old(out)@ + decimal(n as nat));
        }
    }
}

/// A number written in decimal.
pub fn decimal_text(n: u64) -> (r: String)
    ensures
        r@ == decimal(n as nat),
{
    let mut out: String = String::new();
    push_decimal(&mut out, n);
    proof {
        assert(Seq::<char>::empty() + decimal(n as nat) =~= decimal(n as nat));
    }
    out
}

/// Two strings joined.
pub fn joined(a: &str, b: &str) -> (r: String)
    ensures
        r@ == a@ + b@,
{
    let mut out: String = a.to_owned();
    out.push_str(b);
    out
}

/// Three strings joined.
pub fn joined3(a: &str, b: &str, c: &str) -> (r: String)
    ensures
        r@ == a@ + b@ + c@,
{
    let mut out: String = a.to_owned();
    out.push_str(b);
    out.push_str(c);
    out
}

/// The number that a row of digits stands for.
pub open spec fn read_digits(s: Seq<char>) -> int
    decreases s.len(),
{
    if s.len() == 0 {
        0
    } else {
        10 * read_digits(s.drop_last()) + (s.last() as int - '0' as int)
    }
}

/// Whether a text is made of digits.
pub open spec fn digits_only(s: Seq<char>) -> bool {
    forall|i: int| 0 <= i < s.len() ==> '0' <= #[trigger] s[i] <= '9'
}

/// A number written in decimal reads back as itself, and starts with no zero but that of 0.
pub proof fn decimal_reads_back(n: nat)
    ensures
        read_digits(decimal(n)) == n,
        digits_only(decimal(n)),
        decimal(n).len() >= 1,
        n > 0 ==> decimal(n)[0] != '0',
    decreases n,
{
    let d = decimal(n);
    if n < 10 {
        assert(d.drop_last() =~= Seq::<char>::empty());
        assert(read_digits(d.drop_last()) == 0);
        assert(d.last() == digit(n as int));
    } else {
        let m = n / 10;
        decimal_reads_back(m);
        assert(d.drop_last() =~= decimal(m));
        assert(d.last() == digit((n % 10) as int));
        assert(d[0] == decimal(m)[0]);
        assert forall|i: int| 0 <= i < d.len() implies '0' <= #[trigger] d[i] <= '9' by {
            if i < decimal(m).len() {
                assert(d[i] == decimal(m)[i]);
            }
        }
    }
}

} // verus!
