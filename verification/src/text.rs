//! Text primitives: searching, splitting, trimming, decimal numbers.
//!
//! A `&str` or `String` is modelled by its view, a `Seq<char>`; every index in
//! this module counts characters.

use vstd::prelude::*;
use vstd::string::StringExecFns;
use vstd::string::StrSliceExecFns;

verus! {

/// `String::push` appends one character to the end of the string.
pub assume_specification[ String::push ](s: &mut String, c: char)
    ensures
        final(s)@ == old(s)@.push(c),
;

/// The characters of each string of `v`.
pub open spec fn texts(v: Seq<String>) -> Seq<Seq<char>> {
    Seq::new(v.len(), |i: int| v[i]@)
}

/// The characters of each slice of `v`.
pub open spec fn slice_texts(v: Seq<&str>) -> Seq<Seq<char>> {
    Seq::new(v.len(), |i: int| v[i]@)
}

/// The two parts of `s` around the first `c`, if `c` occurs.
pub open spec fn split_once_spec(s: Seq<char>, c: char) -> Option<(Seq<char>, Seq<char>)> {
    match s.index_of_first(c) {
        Some(i) => Some((s.take(i), s.skip(i + 1))),
        None => None,
    }
}

/// The two parts of `s` around the last `c`, if `c` occurs.
pub open spec fn rsplit_once_spec(s: Seq<char>, c: char) -> Option<(Seq<char>, Seq<char>)> {
    match s.index_of_last(c) {
        Some(i) => Some((s.take(i), s.skip(i + 1))),
        None => None,
    }
}

/// The pieces of `s` between occurrences of `c`; one piece if `c` never occurs.
pub open spec fn split_spec(s: Seq<char>, c: char) -> Seq<Seq<char>>
    decreases s.len(),
{
    match s.index_of_first(c) {
        Some(i) => if 0 <= i < s.len() {
            seq![s.take(i)] + split_spec(s.skip(i + 1), c)
        } else {
            seq![s]
        },
        None => seq![s],
    }
}

/// `i` is the position of the first `c` in `s`.
pub open spec fn is_first_index(s: Seq<char>, c: char, i: int) -> bool {
    &&& 0 <= i < s.len()
    &&& s[i] == c
    &&& forall|j: int| 0 <= j < i ==> s[j] != c
}

/// Position of the first `c`, known from the characters around it.
pub proof fn lemma_first_index(s: Seq<char>, c: char, i: int)
    requires
        is_first_index(s, c, i),
    ensures
        s.index_of_first(c) == Some(i),
{
    s.index_of_first_ensures(c);
    assert(s.contains(c));
    let k = s.index_of_first(c).unwrap();
    assert(k == i) by {
        if k < i {
            assert(s[k] != c);
        }
        if i < k {
            assert(s[i] != c);
        }
    }
}

/// Position of the last `c`, known from the characters around it.
pub proof fn lemma_last_index(s: Seq<char>, c: char, i: int)
    requires
        0 <= i < s.len(),
        s[i] == c,
        forall|j: int| i < j < s.len() ==> s[j] != c,
    ensures
        s.index_of_last(c) == Some(i),
{
    s.index_of_last_ensures(c);
    assert(s.contains(c));
    let k = s.index_of_last(c).unwrap();
    assert(k == i) by {
        if k > i {
            assert(s[k] != c);
        }
        if i > k {
            assert(s[i] != c);
        }
    }
}

/// Collect the characters of `s`.
pub fn chars_of(s: &str) -> (r: Vec<char>)
    ensures
        r@ == s@,
{
    let mut out: Vec<char> = Vec::new();
    for c in it: s.chars()
        invariant
            it.seq() == s@,
            out@ == s@.take(it.index() as int),
    {
        out.push(c);
        assert(out@ == s@.take(it.index() + 1));
    }
    assert(s@.take(s@.len() as int) == s@);
    out
}

/// Build a string from characters.
pub fn string_of(cs: &[char]) -> (r: String)
    ensures
        r@ == cs@,
{
    let mut out = String::new();
    let mut i: usize = 0;
    while i < cs.len()
        invariant
            i <= cs@.len(),
            out@ == cs@.take(i as int),
        decreases cs@.len() - i,
    {
        out.push(cs[i]);
        i = i + 1;
        assert(out@ == cs@.take(i as int));
    }
    assert(cs@.take(cs@.len() as int) == cs@);
    out
}

/// Whether two slices hold the same characters.
pub fn text_eq(a: &str, b: &str) -> (r: bool)
    ensures
        r == (a@ == b@),
{
    let x = chars_of(a);
    let y = chars_of(b);
    if x.len() != y.len() {
        return false;
    }
    let mut i: usize = 0;
    while i < x.len()
        invariant
            i <= x@.len(),
            x@.len() == y@.len(),
            x@ == a@,
            y@ == b@,
            forall|j: int| 0 <= j < i ==> x@[j] == y@[j],
        decreases x@.len() - i,
    {
        if x[i] != y[i] {
            return false;
        }
        i = i + 1;
    }
    assert(a@ =~= b@);
    true
}

/// Position of the first `c` in `s`.
pub fn find_char(s: &str, c: char) -> (r: Option<usize>)
    ensures
        match r {
            Some(i) => {
                &&& s@.index_of_first(c) == Some(i as int)
                &&& is_first_index(s@, c, i as int)
                &&& i < usize::MAX
            },
            None => s@.index_of_first(c) is None && !s@.contains(c),
        },
{
    let cs = chars_of(s);
    let mut i: usize = 0;
    while i < cs.len()
        invariant
            i <= cs@.len(),
            cs@ == s@,
            forall|j: int| 0 <= j < i ==> cs@[j] != c,
        decreases cs@.len() - i,
    {
        if cs[i] == c {
            proof {
                lemma_first_index(s@, c, i as int);
            }
            return Some(i);
        }
        i = i + 1;
    }
    proof {
        s@.index_of_first_ensures(c);
    }
    None
}

/// Position of the last `c` in `s`.
pub fn rfind_char(s: &str, c: char) -> (r: Option<usize>)
    ensures
        match r {
            Some(i) => {
                &&& s@.index_of_last(c) == Some(i as int)
                &&& i < s@.len()
                &&& i < usize::MAX
            },
            None => s@.index_of_last(c) is None && !s@.contains(c),
        },
{
    let cs = chars_of(s);
    let mut i: usize = cs.len();
    while i > 0
        invariant
            i <= cs@.len(),
            cs@ == s@,
            forall|j: int| i <= j < cs@.len() ==> cs@[j] != c,
        decreases i,
    {
        i = i - 1;
        if cs[i] == c {
            proof {
                lemma_last_index(s@, c, i as int);
            }
            return Some(i);
        }
    }
    proof {
        s@.index_of_last_ensures(c);
    }
    None
}

/// Whether `c` occurs in `s`.
pub fn contains_char(s: &str, c: char) -> (r: bool)
    ensures
        r == s@.contains(c),
{
    match find_char(s, c) {
        Some(i) => {
            assert(s@[i as int] == c);
            true
        },
        None => false,
    }
}

/// The characters of `s` from position `from` on.
pub fn suffix(s: &str, from: usize) -> (r: &str)
    requires
        from <= s@.len(),
    ensures
        r@ == s@.skip(from as int),
{
    let n: usize = s.unicode_len();
    let r = s.substring_char(from, n);
    assert(r@ == s@.skip(from as int));
    r
}

/// The first `to` characters of `s`.
pub fn prefix(s: &str, to: usize) -> (r: &str)
    requires
        to <= s@.len(),
    ensures
        r@ == s@.take(to as int),
{
    let r = s.substring_char(0, to);
    assert(r@ == s@.take(to as int));
    r
}

/// Split `s` around the first `c`.
pub fn split_once_char(s: &str, c: char) -> (r: Option<(&str, &str)>)
    ensures
        match r {
            Some((a, b)) => split_once_spec(s@, c) == Some((a@, b@)),
            None => split_once_spec(s@, c) is None,
        },
{
    match find_char(s, c) {
        Some(i) => Some((prefix(s, i), suffix(s, i + 1))),
        None => None,
    }
}

/// Split `s` around the last `c`.
pub fn rsplit_once_char(s: &str, c: char) -> (r: Option<(&str, &str)>)
    ensures
        match r {
            Some((a, b)) => rsplit_once_spec(s@, c) == Some((a@, b@)),
            None => rsplit_once_spec(s@, c) is None,
        },
{
    match rfind_char(s, c) {
        Some(i) => Some((prefix(s, i), suffix(s, i + 1))),
        None => None,
    }
}

/// Split `s` at every `c`.
pub fn split_char(s: &str, c: char) -> (r: Vec<&str>)
    ensures
        slice_texts(r@) == split_spec(s@, c),
        r@.len() > 0,
{
    let mut out: Vec<&str> = Vec::new();
    let mut rest: &str = s;
    proof {
        assert(slice_texts(out@) + split_spec(rest@, c) =~= split_spec(s@, c));
    }
    loop
        invariant
            slice_texts(out@) + split_spec(rest@, c) == split_spec(s@, c),
        decreases rest@.len(),
    {
        match find_char(rest, c) {
            Some(i) => {
                let ghost before = out@;
                let head = prefix(rest, i);
                let tail = suffix(rest, i + 1);
                out.push(head);
                proof {
                    assert(split_spec(rest@, c) == seq![head@] + split_spec(tail@, c));
                    assert(slice_texts(out@) =~= slice_texts(before).push(head@));
                    assert(slice_texts(out@) + split_spec(tail@, c) =~= slice_texts(before)
                        + split_spec(rest@, c));
                }
                rest = tail;
            },
            None => {
                let ghost before = out@;
                out.push(rest);
                proof {
                    assert(split_spec(rest@, c) == seq![rest@]);
                    assert(slice_texts(out@) =~= slice_texts(before).push(rest@));
                    assert(slice_texts(out@) =~= slice_texts(before) + seq![rest@]);
                }
                return out;
            },
        }
    }
}

/// Texts in a row with commas between them.
pub open spec fn listed(parts: Seq<Seq<char>>) -> Seq<char>
    decreases parts.len(),
{
    if parts.len() == 0 {
        Seq::empty()
    } else if parts.len() == 1 {
        parts[0]
    } else {
        listed(parts.drop_last()) + ", "@ + parts.last()
    }
}

/// Put texts in a row with commas between them.
pub fn list(parts: &[&str]) -> (r: String)
    ensures
        r@ == listed(slice_texts(parts@)),
{
    let ghost all = slice_texts(parts@);
    let mut out = String::new();
    let mut i: usize = 0;
    assert(all.take(0) =~= Seq::empty());
    assert(out@ =~= Seq::empty());
    while i < parts.len()
        invariant
            i <= parts@.len(),
            all == slice_texts(parts@),
            out@ == listed(all.take(i as int)),
        decreases parts@.len() - i,
    {
        proof {
            assert(all.take(i + 1).drop_last() =~= all.take(i as int));
            assert(all.take(i + 1).last() == parts@[i as int]@);
        }
        if i > 0 {
            out.append(", ");
        }
        let ghost before = out@;
        out.append(parts[i]);
        assert(i == 0 ==> before + parts@[0]@ =~= parts@[0]@);
        i = i + 1;
    }
    assert(all.take(all.len() as int) =~= all);
    out
}

/// Put strings in a row with commas between them.
pub fn list_strings(parts: &[String]) -> (r: String)
    ensures
        r@ == listed(texts(parts@)),
{
    let ghost all = texts(parts@);
    let mut out = String::new();
    let mut i: usize = 0;
    assert(all.take(0) =~= Seq::empty());
    assert(out@ =~= Seq::empty());
    while i < parts.len()
        invariant
            i <= parts@.len(),
            all == texts(parts@),
            out@ == listed(all.take(i as int)),
        decreases parts@.len() - i,
    {
        proof {
            assert(all.take(i + 1).drop_last() =~= all.take(i as int));
            assert(all.take(i + 1).last() == parts@[i as int]@);
        }
        if i > 0 {
            out.append(", ");
        }
        let ghost before = out@;
        out.append(parts[i].as_str());
        assert(i == 0 ==> before + parts@[0]@ =~= parts@[0]@);
        i = i + 1;
    }
    assert(all.take(all.len() as int) =~= all);
    out
}

/// Whether `a` comes before `b`: the texts are compared character by character, and a
/// text comes before its extensions.
pub open spec fn before(a: Seq<char>, b: Seq<char>) -> bool
    decreases a.len(),
{
    if b.len() == 0 {
        false
    } else if a.len() == 0 {
        true
    } else if a[0] != b[0] {
        a[0] < b[0]
    } else {
        before(a.skip(1), b.skip(1))
    }
}

/// Whether `a` comes before `b`.
pub fn text_before(a: &str, b: &str) -> (r: bool)
    ensures
        r == before(a@, b@),
{
    let x = chars_of(a);
    let y = chars_of(b);
    let mut i: usize = 0;
    assert(a@.skip(0) =~= a@);
    assert(b@.skip(0) =~= b@);
    while i < x.len() && i < y.len() && x[i] == y[i]
        invariant
            x@ == a@,
            y@ == b@,
            i <= x@.len(),
            i <= y@.len(),
            before(a@, b@) == before(a@.skip(i as int), b@.skip(i as int)),
        decreases x@.len() - i,
    {
        assert(a@.skip(i as int).skip(1) =~= a@.skip(i + 1));
        assert(b@.skip(i as int).skip(1) =~= b@.skip(i + 1));
        i = i + 1;
    }
    if i == y.len() {
        false
    } else if i == x.len() {
        true
    } else {
        x[i] < y[i]
    }
}

/// Of two different texts one comes before the other.
pub proof fn lemma_before_total(a: Seq<char>, b: Seq<char>)
    ensures
        before(a, b) || before(b, a) || a == b,
    decreases a.len(),
{
    if a.len() > 0 && b.len() > 0 && a[0] == b[0] {
        lemma_before_total(a.skip(1), b.skip(1));
        if a.skip(1) == b.skip(1) {
            assert(a =~= seq![a[0]] + a.skip(1));
            assert(b =~= seq![b[0]] + b.skip(1));
        }
    } else if a.len() == 0 && b.len() == 0 {
        assert(a =~= b);
    }
}

/// What comes before something that comes before a third comes before that too.
pub proof fn lemma_before_trans(a: Seq<char>, b: Seq<char>, c: Seq<char>)
    requires
        before(a, b),
        before(b, c),
    ensures
        before(a, c),
    decreases a.len(),
{
    if a.len() > 0 && a[0] == b[0] && b[0] == c[0] {
        lemma_before_trans(a.skip(1), b.skip(1), c.skip(1));
    }
}

/// The Unicode `White_Space` characters.
pub open spec fn is_white(c: char) -> bool {
    let n = c as u32;
    ||| 0x09 <= n <= 0x0D
    ||| n == 0x20
    ||| n == 0x85
    ||| n == 0xA0
    ||| n == 0x1680
    ||| 0x2000 <= n <= 0x200A
    ||| n == 0x2028
    ||| n == 0x2029
    ||| n == 0x202F
    ||| n == 0x205F
    ||| n == 0x3000
}

/// `s` without its leading white space.
pub open spec fn trim_start_spec(s: Seq<char>) -> Seq<char>
    decreases s.len(),
{
    if s.len() > 0 && is_white(s[0]) {
        trim_start_spec(s.skip(1))
    } else {
        s
    }
}

/// `s` without its trailing white space.
pub open spec fn trim_end_spec(s: Seq<char>) -> Seq<char>
    decreases s.len(),
{
    if s.len() > 0 && is_white(s.last()) {
        trim_end_spec(s.drop_last())
    } else {
        s
    }
}

/// `s` without white space at either end.
pub open spec fn trim_spec(s: Seq<char>) -> Seq<char> {
    trim_end_spec(trim_start_spec(s))
}

/// Whether `c` is a Unicode `White_Space` character.
pub fn char_is_white(c: char) -> (r: bool)
    ensures
        r == is_white(c),
{
    let n: u32 = c as u32;
    (0x09 <= n && n <= 0x0D) || n == 0x20 || n == 0x85 || n == 0xA0 || n == 0x1680 || (0x2000 <= n
        && n <= 0x200A) || n == 0x2028 || n == 0x2029 || n == 0x202F || n == 0x205F || n == 0x3000
}

/// `s` without white space at either end.
pub fn trim(s: &str) -> (r: &str)
    ensures
        r@ == trim_spec(s@),
{
    let cs = chars_of(s);
    let mut lo: usize = 0;
    assert(s@.skip(0) == s@);
    while lo < cs.len() && char_is_white(cs[lo])
        invariant
            lo <= cs@.len(),
            cs@ == s@,
            trim_start_spec(s@.skip(lo as int)) == trim_start_spec(s@),
        decreases cs@.len() - lo,
    {
        proof {
            let t = s@.skip(lo as int);
            assert(t[0] == cs@[lo as int]);
            assert(t.skip(1) == s@.skip(lo + 1));
        }
        lo = lo + 1;
    }
    proof {
        let t = s@.skip(lo as int);
        if lo < cs@.len() {
            assert(t[0] == cs@[lo as int]);
        }
        assert(trim_start_spec(s@) == t);
    }
    let mut hi: usize = cs.len();
    assert(s@.subrange(lo as int, hi as int) == s@.skip(lo as int));
    while hi > lo && char_is_white(cs[hi - 1])
        invariant
            lo <= hi <= cs@.len(),
            cs@ == s@,
            trim_start_spec(s@) == s@.skip(lo as int),
            trim_end_spec(s@.subrange(lo as int, hi as int)) == trim_spec(s@),
        decreases hi,
    {
        proof {
            let t = s@.subrange(lo as int, hi as int);
            assert(t.last() == cs@[hi - 1]);
            assert(t.drop_last() == s@.subrange(lo as int, hi - 1));
        }
        hi = hi - 1;
    }
    proof {
        let t = s@.subrange(lo as int, hi as int);
        if hi > lo {
            assert(t.last() == cs@[hi - 1]);
        }
    }
    s.substring_char(lo, hi)
}

/// Whether `c` is an ASCII decimal digit.
pub open spec fn is_digit(c: char) -> bool {
    '0' <= c <= '9'
}

/// The value of one decimal digit.
pub open spec fn digit_value(c: char) -> nat {
    (c as u32 - '0' as u32) as nat
}

/// Whether `s` is one or more decimal digits.
pub open spec fn is_decimal(s: Seq<char>) -> bool {
    s.len() > 0 && forall|i: int| 0 <= i < s.len() ==> is_digit(#[trigger] s[i])
}

/// The number that a string of decimal digits denotes.
pub open spec fn decimal_value(s: Seq<char>) -> nat
    decreases s.len(),
{
    if s.len() == 0 {
        0
    } else {
        decimal_value(s.drop_last()) * 10 + digit_value(s.last())
    }
}

/// `s` without one leading plus sign.
pub open spec fn without_plus(s: Seq<char>) -> Seq<char> {
    if s.len() > 0 && s[0] == '+' {
        s.skip(1)
    } else {
        s
    }
}

/// The unsigned number of at most `max` that `s` spells: an optional plus sign and
/// decimal digits.
pub open spec fn unsigned_spec(s: Seq<char>, max: nat) -> Option<nat> {
    let d = without_plus(s);
    if is_decimal(d) && decimal_value(d) <= max {
        Some(decimal_value(d))
    } else {
        None
    }
}

/// Dropping trailing digits does not make a number larger.
proof fn lemma_decimal_prefix(s: Seq<char>, i: int)
    requires
        0 <= i <= s.len(),
    ensures
        decimal_value(s.take(i)) <= decimal_value(s),
    decreases s.len() - i,
{
    if i == s.len() {
        assert(s.take(i) == s);
    } else {
        lemma_decimal_prefix(s, i + 1);
        assert(s.take(i + 1).drop_last() == s.take(i));
    }
}

/// Read an unsigned decimal number of at most `max`.
pub fn parse_unsigned(s: &str, max: u64) -> (r: Option<u64>)
    ensures
        match r {
            Some(n) => unsigned_spec(s@, max as nat) == Some(n as nat),
            None => unsigned_spec(s@, max as nat) is None,
        },
{
    let cs = chars_of(s);
    let start: usize = if cs.len() > 0 && cs[0] == '+' {
        1
    } else {
        0
    };
    let ghost d = without_plus(s@);
    assert(d == s@.skip(start as int));
    if start == cs.len() {
        return None;
    }
    let mut n: u64 = 0;
    let mut i: usize = start;
    assert(d.take(0).len() == 0);
    while i < cs.len()
        invariant
            start <= i <= cs@.len(),
            cs@ == s@,
            d == s@.skip(start as int),
            d == without_plus(s@),
            n == decimal_value(d.take(i - start)),
            n <= max,
            forall|j: int| 0 <= j < i - start ==> is_digit(#[trigger] d[j]),
        decreases cs@.len() - i,
    {
        let c = cs[i];
        assert(c == d[i - start]);
        if !(c >= '0' && c <= '9') {
            assert(!is_digit(d[i - start]));
            return None;
        }
        let v: u64 = (c as u32 - 48) as u64;
        proof {
            assert(d.take(i - start + 1).drop_last() == d.take(i - start));
            assert(d.take(i - start + 1).last() == c);
            lemma_decimal_prefix(d, i - start + 1);
            assert(decimal_value(d.take(i - start + 1)) == n * 10 + v);
        }
        if n > (u64::MAX - v) / 10 || n * 10 + v > max {
            return None;
        }
        n = n * 10 + v;
        i = i + 1;
    }
    assert(d.take(d.len() as int) == d);
    Some(n)
}

/// The decimal digit for `d`.
pub open spec fn digit_char(d: nat) -> char {
    ('0' as u32 + d) as char
}

/// The decimal digits of `n`, without leading zeros.
pub open spec fn decimal_spec(n: nat) -> Seq<char>
    decreases n,
{
    if n < 10 {
        seq![digit_char(n)]
    } else {
        decimal_spec(n / 10).push(digit_char(n % 10))
    }
}

/// Write `n` in decimal.
pub fn decimal(n: u64) -> (r: String)
    ensures
        r@ == decimal_spec(n as nat),
    decreases n,
{
    let last: char = (48 + (n % 10) as u8) as char;
    let mut out: String = if n < 10 {
        String::new()
    } else {
        decimal(n / 10)
    };
    out.push(last);
    assert(n < 10 ==> out@ == seq![digit_char(n as nat)]);
    out
}

/// A written number is made of digits and reads back as itself.
pub proof fn law_decimal_reads_back(n: nat)
    ensures
        is_decimal(decimal_spec(n)),
        decimal_value(decimal_spec(n)) == n,
    decreases n,
{
    let s = decimal_spec(n);
    if n < 10 {
        assert(s.drop_last() == Seq::<char>::empty());
        reveal_with_fuel(decimal_value, 2);
    } else {
        law_decimal_reads_back(n / 10);
        assert(s.drop_last() == decimal_spec(n / 10));
        assert forall|i: int| 0 <= i < s.len() implies is_digit(#[trigger] s[i]) by {
            if i < s.len() - 1 {
                assert(s[i] == decimal_spec(n / 10)[i]);
            }
        }
    }
}

/// A written number is not empty and holds digits only.
pub proof fn lemma_decimal_chars(n: nat)
    ensures
        decimal_spec(n).len() > 0,
        forall|i: int|
            0 <= i < decimal_spec(n).len() ==> '0' <= #[trigger] decimal_spec(n)[i] <= '9',
        trim_spec(decimal_spec(n)) == decimal_spec(n),
{
    law_decimal_reads_back(n);
    let s = decimal_spec(n);
    assert forall|i: int| 0 <= i < s.len() implies '0' <= #[trigger] s[i] <= '9' by {
        assert(is_digit(s[i]));
    }
    assert(!is_white(s[0]));
    assert(!is_white(s[s.len() - 1]));
}

/// A number that fits reads back as itself.
pub proof fn lemma_unsigned_reads_back(n: nat, max: nat)
    requires
        n <= max,
    ensures
        unsigned_spec(decimal_spec(n), max) == Some(n),
{
    law_decimal_reads_back(n);
    lemma_decimal_chars(n);
    assert(decimal_spec(n)[0] != '+');
}

/// A split around the first occurrence: the two parts with the character between them are the
/// text, and the first part does not hold it. There are no parts exactly where the text does
/// not hold it.
pub proof fn law_first_split(s: Seq<char>, c: char)
    ensures
        split_once_spec(s, c) is None <==> !s.contains(c),
        split_once_spec(s, c) matches Some((a, b)) ==> s == a + seq![c] + b && !a.contains(c),
{
    s.index_of_first_ensures(c);
    if let Some(i) = s.index_of_first(c) {
        assert(s =~= s.take(i) + seq![c] + s.skip(i + 1));
    }
}

/// A split around the last occurrence: the two parts with the character between them are the
/// text, and the second part does not hold it. There are no parts exactly where the text does
/// not hold it.
pub proof fn law_last_split(s: Seq<char>, c: char)
    ensures
        rsplit_once_spec(s, c) is None <==> !s.contains(c),
        rsplit_once_spec(s, c) matches Some((a, b)) ==> s == a + seq![c] + b && !b.contains(c),
{
    s.index_of_last_ensures(c);
    if let Some(i) = s.index_of_last(c) {
        assert(s =~= s.take(i) + seq![c] + s.skip(i + 1));
    }
}

/// Texts with a character between each and the next.
pub open spec fn joined(parts: Seq<Seq<char>>, c: char) -> Seq<char>
    decreases parts.len(),
{
    if parts.len() == 0 {
        Seq::empty()
    } else if parts.len() == 1 {
        parts[0]
    } else {
        parts[0] + seq![c] + joined(parts.skip(1), c)
    }
}

/// The pieces of a text do not hold the character that it is split at, and with it between
/// them they are the text.
pub proof fn law_pieces_join(s: Seq<char>, c: char)
    ensures
        split_spec(s, c).len() > 0,
        joined(split_spec(s, c), c) == s,
        forall|i: int| 0 <= i < split_spec(s, c).len() ==> !(#[trigger] split_spec(s, c)[i]).contains(c),
    decreases s.len(),
{
    s.index_of_first_ensures(c);
    let pieces = split_spec(s, c);
    match s.index_of_first(c) {
        Some(i) => {
            let rest = s.skip(i + 1);
            law_pieces_join(rest, c);
            assert(pieces.skip(1) =~= split_spec(rest, c));
            assert(s =~= s.take(i) + seq![c] + rest);
            assert forall|k: int| 0 <= k < pieces.len() implies !(
            #[trigger] pieces[k]).contains(c) by {
                if k > 0 {
                    assert(pieces[k] == split_spec(rest, c)[k - 1]);
                }
            }
        },
        None => {},
    }
}

/// Texts that do not hold a character come back when they are joined with it and split again.
pub proof fn law_joined_texts_split(parts: Seq<Seq<char>>, c: char)
    requires
        parts.len() > 0,
        forall|i: int| 0 <= i < parts.len() ==> !(#[trigger] parts[i]).contains(c),
    ensures
        split_spec(joined(parts, c), c) == parts,
    decreases parts.len(),
{
    let s = joined(parts, c);
    assert(!parts[0].contains(c));
    if parts.len() == 1 {
        s.index_of_first_ensures(c);
        assert(split_spec(s, c) =~= parts);
    } else {
        let rest = parts.skip(1);
        assert forall|i: int| 0 <= i < rest.len() implies !(#[trigger] rest[i]).contains(c) by {
            assert(rest[i] == parts[i + 1]);
        }
        law_joined_texts_split(rest, c);
        let n = parts[0].len() as int;
        assert(s[n] == c);
        assert forall|j: int| 0 <= j < n implies s[j] != c by {
            assert(s[j] == parts[0][j]);
            assert(parts[0].contains(parts[0][j]));
        }
        lemma_first_index(s, c, n);
        assert(s.take(n) =~= parts[0]);
        assert(s.skip(n + 1) =~= joined(rest, c));
        assert(seq![parts[0]] + rest =~= parts);
    }
}

/// Trimming takes white space off the ends, all of it and nothing else.
pub proof fn law_trim_is_exact(s: Seq<char>)
    ensures
        exists|lo: int, hi: int|
            0 <= lo <= hi <= s.len() && #[trigger] s.subrange(lo, hi) == trim_spec(s) && (forall|
                i: int,
            |
                0 <= i < lo || hi <= i < s.len() ==> is_white(#[trigger] s[i])) && (lo < hi ==> !is_white(
                s[lo],
            ) && !is_white(s[hi - 1])),
{
    let lo = lemma_trim_start(s);
    let t = s.skip(lo);
    let hi = lemma_trim_end(t);
    assert(s.subrange(lo, lo + hi) =~= t.take(hi));
    assert forall|i: int| 0 <= i < lo || lo + hi <= i < s.len() implies is_white(
        #[trigger] s[i],
    ) by {
        if i >= lo {
            assert(t[i - lo] == s[i]);
        }
    }
    if hi > 0 {
        assert(t[0] == s[lo]);
        assert(t[hi - 1] == s[lo + hi - 1]);
    }
}

/// Where the text begins that is left without leading white space.
proof fn lemma_trim_start(s: Seq<char>) -> (lo: int)
    ensures
        0 <= lo <= s.len(),
        trim_start_spec(s) == s.skip(lo),
        forall|i: int| 0 <= i < lo ==> is_white(#[trigger] s[i]),
        lo < s.len() ==> !is_white(s[lo]),
    decreases s.len(),
{
    if s.len() > 0 && is_white(s[0]) {
        let rest = s.skip(1);
        let n = lemma_trim_start(rest);
        assert(rest.skip(n) =~= s.skip(n + 1));
        assert forall|i: int| 0 <= i < n + 1 implies is_white(#[trigger] s[i]) by {
            if i > 0 {
                assert(rest[i - 1] == s[i]);
            }
        }
        n + 1
    } else {
        assert(s.skip(0) =~= s);
        0
    }
}

/// Where the text ends that is left without trailing white space.
proof fn lemma_trim_end(s: Seq<char>) -> (hi: int)
    ensures
        0 <= hi <= s.len(),
        trim_end_spec(s) == s.take(hi),
        forall|i: int| hi <= i < s.len() ==> is_white(#[trigger] s[i]),
        hi > 0 ==> !is_white(s[hi - 1]),
        s.len() > 0 && !is_white(s[0]) ==> hi > 0,
    decreases s.len(),
{
    if s.len() > 0 && is_white(s.last()) {
        let rest = s.drop_last();
        let n = lemma_trim_end(rest);
        assert(rest.take(n) =~= s.take(n));
        assert forall|i: int| n <= i < s.len() implies is_white(#[trigger] s[i]) by {
            if i < rest.len() {
                assert(rest[i] == s[i]);
            }
        }
        n
    } else {
        assert(s.take(s.len() as int) =~= s);
        s.len() as int
    }
}

/// Of the ASCII characters the blank and those from the tabulator to the carriage return are
/// white space.
pub proof fn law_ascii_white_space(c: char)
    requires
        (c as u32) < 0x80,
    ensures
        is_white(c) <==> c == ' ' || c == '\t' || c == '\n' || c == '\r' || c as u32 == 11
            || c as u32 == 12,
{
}

/// What is read as a number: a written number is, where it is not above the limit, also with
/// a plus sign before it; nothing with another character than a digit behind the sign is, nor
/// is a text without digits.
pub proof fn law_numbers_are_read(n: nat, max: nat, s: Seq<char>)
    ensures
        unsigned_spec(decimal_spec(n), max) == if n <= max {
            Some(n)
        } else {
            None
        },
        unsigned_spec(seq!['+'] + decimal_spec(n), max) == unsigned_spec(decimal_spec(n), max),
        unsigned_spec(s, max) matches Some(m) ==> m <= max,
        s.len() == 0 ==> unsigned_spec(s, max) is None,
        s == seq!['+'] ==> unsigned_spec(s, max) is None,
        (exists|i: int|
            0 <= i < s.len() && !('0' <= #[trigger] s[i] <= '9') && !(i == 0 && s[i] == '+'))
            ==> unsigned_spec(s, max) is None,
{
    law_decimal_reads_back(n);
    lemma_decimal_chars(n);
    let d = decimal_spec(n);
    assert(d[0] != '+');
    assert((seq!['+'] + d).skip(1) =~= d);
    if exists|i: int|
        0 <= i < s.len() && !('0' <= #[trigger] s[i] <= '9') && !(i == 0 && s[i] == '+') {
        let i = choose|i: int|
            0 <= i < s.len() && !('0' <= #[trigger] s[i] <= '9') && !(i == 0 && s[i] == '+');
        let w = without_plus(s);
        if s[0] == '+' {
            assert(w[i - 1] == s[i]);
        } else {
            assert(w[i] == s[i]);
        }
    }
}

/// A zero before the digits of a number does not change it.
pub proof fn law_leading_zeros_do_not_count(s: Seq<char>, max: nat)
    requires
        s.len() > 0,
        forall|i: int| 0 <= i < s.len() ==> '0' <= #[trigger] s[i] <= '9',
    ensures
        unsigned_spec(seq!['0'] + s, max) == unsigned_spec(s, max),
{
    let z = seq!['0'] + s;
    lemma_leading_zero(s);
    assert forall|i: int| 0 <= i < z.len() implies is_digit(#[trigger] z[i]) by {
        if i > 0 {
            assert(z[i] == s[i - 1]);
        }
    }
    assert('0' <= s[0] <= '9');
}

/// The value of digits behind a zero.
proof fn lemma_leading_zero(s: Seq<char>)
    ensures
        decimal_value(seq!['0'] + s) == decimal_value(s),
    decreases s.len(),
{
    let z = seq!['0'] + s;
    if s.len() == 0 {
        reveal_with_fuel(decimal_value, 2);
        assert(z.drop_last() =~= Seq::<char>::empty());
    } else {
        lemma_leading_zero(s.drop_last());
        assert(z.drop_last() =~= seq!['0'] + s.drop_last());
    }
}

/// One text comes before another where they agree up to some place at which the first ends
/// and the second does not, or at which the first has the lesser character.
pub proof fn law_text_order(a: Seq<char>, b: Seq<char>)
    ensures
        before(a, b) <==> exists|k: int|
            0 <= k <= a.len() && k < b.len() && #[trigger] a.take(k) == b.take(k) && (k < a.len()
                ==> a[k] < b[k]),
    decreases a.len(),
{
    if a.len() > 0 && b.len() > 0 && a[0] == b[0] {
        let a1 = a.skip(1);
        let b1 = b.skip(1);
        law_text_order(a1, b1);
        if before(a, b) {
            let k = choose|k: int|
                0 <= k <= a1.len() && k < b1.len() && #[trigger] a1.take(k) == b1.take(k) && (k
                    < a1.len() ==> a1[k] < b1[k]);
            assert(a.take(k + 1) =~= seq![a[0]] + a1.take(k));
            assert(b.take(k + 1) =~= seq![b[0]] + b1.take(k));
            assert(a.take(k + 1) == b.take(k + 1));
        }
        if exists|k: int|
            0 <= k <= a.len() && k < b.len() && #[trigger] a.take(k) == b.take(k) && (k < a.len()
                ==> a[k] < b[k]) {
            let k = choose|k: int|
                0 <= k <= a.len() && k < b.len() && #[trigger] a.take(k) == b.take(k) && (k
                    < a.len() ==> a[k] < b[k]);
            assert(k > 0);
            assert(a1.take(k - 1) =~= a.take(k).skip(1));
            assert(b1.take(k - 1) =~= b.take(k).skip(1));
        }
    } else {
        if before(a, b) {
            assert(a.take(0) =~= b.take(0));
        }
        if exists|k: int|
            0 <= k <= a.len() && k < b.len() && #[trigger] a.take(k) == b.take(k) && (k < a.len()
                ==> a[k] < b[k]) {
            let k = choose|k: int|
                0 <= k <= a.len() && k < b.len() && #[trigger] a.take(k) == b.take(k) && (k
                    < a.len() ==> a[k] < b[k]);
            if k > 0 {
                assert(a.take(k)[0] == b.take(k)[0]);
            }
        }
    }
}

/// A list grows by a comma, a blank and the text that is added to it.
pub proof fn law_list_grows(parts: Seq<Seq<char>>, part: Seq<char>)
    ensures
        listed(seq![part]) == part,
        parts.len() > 0 ==> listed(parts.push(part)) == listed(parts) + seq![',', ' '] + part,
{
    reveal_strlit(", ");
    assert(parts.push(part).drop_last() =~= parts);
    assert(", "@ =~= seq![',', ' ']);
}

} // verus!
