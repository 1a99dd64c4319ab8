//! Text helpers: strings are modelled as sequences of characters.
use vstd::prelude::*;

verus! {

/// `String::push` appends one character at the end of the string.
pub assume_specification[ String::push ](s: &mut String, c: char)
    ensures
        final(s)@ == old(s)@.push(c),
;

/// The views of the entries of a sequence; the texts of a sequence of strings.
pub open spec fn views<T: View>(v: Seq<T>) -> Seq<T::V> {
    Seq::new(v.len(), |i: int| v[i]@)
}

/// The view of what an option holds; the text of an optional string.
pub open spec fn opt_view<T: View>(o: Option<T>) -> Option<T::V> {
    match o {
        Some(s) => Some(s@),
        None => None,
    }
}

/// `p` occurs in `s` at position `i`.
pub open spec fn occurs_at(s: Seq<char>, p: Seq<char>, i: int) -> bool {
    &&& 0 <= i
    &&& i + p.len() <= s.len()
    &&& s.subrange(i, i + p.len()) =~= p
}

/// `p` occurs somewhere in `s`.
pub open spec fn has(s: Seq<char>, p: Seq<char>) -> bool {
    exists|i: int| occurs_at(s, p, i)
}

/// `s` begins with `p`.
pub open spec fn begins(s: Seq<char>, p: Seq<char>) -> bool {
    occurs_at(s, p, 0)
}

/// `s` ends with `p`.
pub open spec fn ends(s: Seq<char>, p: Seq<char>) -> bool {
    occurs_at(s, p, s.len() - p.len())
}

/// The position of the first `c` at or after `i`, or the length when there is none.
pub open spec fn index_from(s: Seq<char>, c: char, i: int) -> int
    decreases s.len() - i,
{
    if i >= s.len() {
        s.len() as int
    } else if s[i] == c {
        i
    } else {
        index_from(s, c, i + 1)
    }
}

/// The pieces of `s` between the separators `c`; one more piece than separators.
pub open spec fn split(s: Seq<char>, c: char) -> Seq<Seq<char>>
    decreases s.len(),
{
    let k = index_from(s, c, 0);
    if k < 0 || k >= s.len() {
        seq![s]
    } else {
        seq![s.take(k)] + split(s.skip(k + 1), c)
    }
}

/// The pieces joined with `sep` between neighbours.
pub open spec fn join(parts: Seq<Seq<char>>, sep: Seq<char>) -> Seq<char>
    decreases parts.len(),
{
    if parts.len() == 0 {
        Seq::empty()
    } else if parts.len() == 1 {
        parts[0]
    } else {
        join(parts.drop_last(), sep) + sep + parts.last()
    }
}

/// Every non-overlapping occurrence of `p`, taken from the left, replaced by `r`.
pub open spec fn replaced(s: Seq<char>, p: Seq<char>, r: Seq<char>) -> Seq<char>
    decreases s.len(),
{
    if p.len() == 0 || s.len() < p.len() {
        s
    } else if occurs_at(s, p, 0) {
        r + replaced(s.skip(p.len() as int), p, r)
    } else {
        seq![s[0]] + replaced(s.skip(1), p, r)
    }
}

/// The number of non-overlapping occurrences of `p`, taken from the left.
pub open spec fn occurrences(s: Seq<char>, p: Seq<char>) -> nat
    decreases s.len(),
{
    if p.len() == 0 || s.len() < p.len() {
        0
    } else if occurs_at(s, p, 0) {
        1 + occurrences(s.skip(p.len() as int), p)
    } else {
        occurrences(s.skip(1), p)
    }
}

/// The decimal digit for `d`.
pub open spec fn digit(d: nat) -> char {
    (48 + d) as char
}

/// The decimal numeral of `n`, without leading zeros.
pub open spec fn dec(n: nat) -> Seq<char>
    decreases n,
{
    if n < 10 {
        seq![digit(n)]
    } else {
        dec(n / 10).push(digit(n % 10))
    }
}

/// The decimal numeral of a signed number.
pub open spec fn dec_int(n: int) -> Seq<char> {
    if n < 0 {
        seq!['-'] + dec((-n) as nat)
    } else {
        dec(n as nat)
    }
}

/// `c` is a decimal digit.
pub open spec fn is_digit(c: char) -> bool {
    '0' <= c && c <= '9'
}

/// The number that a string of decimal digits stands for.
pub open spec fn numeral(s: Seq<char>) -> nat
    decreases s.len(),
{
    if s.len() == 0 {
        0
    } else {
        (numeral(s.drop_last()) * 10 + (s.last() as nat - 48)) as nat
    }
}

/// Non-empty and all decimal digits.
pub open spec fn is_numeral(s: Seq<char>) -> bool {
    &&& s.len() > 0
    &&& forall|i: int| 0 <= i < s.len() ==> is_digit(#[trigger] s[i])
}

/// The white space of Unicode.
pub open spec fn is_space(c: char) -> bool {
    ||| '\u{9}' <= c && c <= '\u{d}'
    ||| c == ' '
    ||| c == '\u{85}'
    ||| c == '\u{a0}'
    ||| c == '\u{1680}'
    ||| '\u{2000}' <= c && c <= '\u{200a}'
    ||| c == '\u{2028}'
    ||| c == '\u{2029}'
    ||| c == '\u{202f}'
    ||| c == '\u{205f}'
    ||| c == '\u{3000}'
}

/// `s` without white space at its start.
pub open spec fn trim_start(s: Seq<char>) -> Seq<char>
    decreases s.len(),
{
    if s.len() > 0 && is_space(s[0]) {
        trim_start(s.skip(1))
    } else {
        s
    }
}

/// `s` without white space at its end.
pub open spec fn trim_end(s: Seq<char>) -> Seq<char>
    decreases s.len(),
{
    if s.len() > 0 && is_space(s.last()) {
        trim_end(s.drop_last())
    } else {
        s
    }
}

/// `s` without white space at either side.
pub open spec fn trimmed(s: Seq<char>) -> Seq<char> {
    trim_end(trim_start(s))
}

/// The ASCII letters of `s` in lower case.
pub open spec fn lower(s: Seq<char>) -> Seq<char> {
    Seq::new(s.len(), |i: int| lower_char(s[i]))
}

/// `c` in lower case when it is an ASCII letter.
pub open spec fn lower_char(c: char) -> char {
    if 'A' <= c && c <= 'Z' {
        (c as u32 + 32) as char
    } else {
        c
    }
}

/// The ASCII letters of `s` in upper case.
pub open spec fn upper(s: Seq<char>) -> Seq<char> {
    Seq::new(s.len(), |i: int| upper_char(s[i]))
}

/// `c` in upper case when it is an ASCII letter.
pub open spec fn upper_char(c: char) -> char {
    if 'a' <= c && c <= 'z' {
        (c as u32 - 32) as char
    } else {
        c
    }
}

/// The characters of a string.
pub fn chars_of(s: &str) -> (v: Vec<char>)
    ensures
        v@ == s@,
{
    let mut v: Vec<char> = Vec::new();
    for c in it: s.chars()
        invariant
            v@ == it.seq().take(it.index() as int),
            it.seq() == s@,
    {
        v.push(c);
    }
    v
}

/// The string of the characters from `i` to `j`.
pub fn string_of(v: &Vec<char>, i: usize, j: usize) -> (s: String)
    requires
        i <= j <= v@.len(),
    ensures
        s@ == v@.subrange(i as int, j as int),
{
    let mut s = String::new();
    let mut k: usize = i;
    while k < j
        invariant
            i <= k <= j <= v@.len(),
            s@ == v@.subrange(i as int, k as int),
        decreases j - k,
    {
        s.push(v[k]);
        k = k + 1;
    }
    s
}

/// An owned copy of a text.
pub fn owned(s: &str) -> (r: String)
    ensures
        r@ == s@,
{
    s.to_owned()
}

/// Two texts are the same.
pub fn same(a: &str, b: &str) -> (r: bool)
    ensures
        r == (a@ == b@),
{
    let x = a.to_owned();
    let y = b.to_owned();
    x == y
}

/// A copy of a list whose entries can be copied.
pub fn copy_list<T: View + Clone>(v: &Vec<T>) -> (r: Vec<T>)
    requires
        forall|x: &T, y: T| #[trigger] call_ensures(T::clone, (x,), y) ==> y@ == x@,
        forall|x: &T| #[trigger] call_requires(T::clone, (x,)),
    ensures
        views(r@) == views(v@),
{
    let mut r: Vec<T> = Vec::new();
    let mut i: usize = 0;
    while i < v.len()
        invariant
            i <= v@.len(),
            forall|x: &T, y: T| #[trigger] call_ensures(T::clone, (x,), y) ==> y@ == x@,
            forall|x: &T| #[trigger] call_requires(T::clone, (x,)),
            views(r@) == views(v@).take(i as int),
        decreases v@.len() - i,
    {
        let y = v[i].clone();
        let ghost before = views(r@);
        r.push(y);
        assert(views(r@) =~= before.push(y@));
        assert(views(r@) =~= views(v@).take(i + 1));
        i = i + 1;
    }
    assert(views(r@) =~= views(v@));
    r
}

/// An optional string equals another.
pub fn same_opt(a: &Option<String>, b: &Option<String>) -> (r: bool)
    ensures
        r == (opt_view(*a) == opt_view(*b)),
{
    match (a, b) {
        (Some(x), Some(y)) => same(x, y),
        (None, None) => true,
        _ => false,
    }
}

/// A copy of an optional string.
pub fn copy_opt(a: &Option<String>) -> (r: Option<String>)
    ensures
        opt_view(r) == opt_view(*a),
        r is Some == a is Some,
{
    match a {
        Some(x) => Some(x.clone()),
        None => None,
    }
}

/// A copy of a list of strings.
pub fn copy_all(v: &Vec<String>) -> (r: Vec<String>)
    ensures
        views(r@) == views(v@),
        r@ == v@,
{
    let mut r: Vec<String> = Vec::new();
    let mut i: usize = 0;
    while i < v.len()
        invariant
            i <= v@.len(),
            r@ == v@.take(i as int),
        decreases v@.len() - i,
    {
        r.push(v[i].clone());
        i = i + 1;
    }
    assert(r@ =~= v@);
    r
}

/// `list` contains the text `x`.
pub fn contains_text(list: &Vec<String>, x: &str) -> (r: bool)
    ensures
        r == views(list@).contains(x@),
{
    let mut i: usize = 0;
    while i < list.len()
        invariant
            i <= list@.len(),
            forall|j: int| 0 <= j < i ==> views(list@)[j] != x@,
        decreases list@.len() - i,
    {
        if same(&list[i], x) {
            assert(views(list@)[i as int] == x@);
            return true;
        }
        i = i + 1;
    }
    false
}

/// `p` occurs in `s` at `i`.
pub fn found_at(s: &Vec<char>, p: &Vec<char>, i: usize) -> (r: bool)
    requires
        i <= s@.len(),
    ensures
        r == occurs_at(s@, p@, i as int),
{
    let n: usize = s.len();
    if p.len() > n - i {
        return false;
    }
    let mut k: usize = 0;
    while k < p.len()
        invariant
            n == s@.len(),
            i <= s@.len(),
            p@.len() <= s@.len() - i,
            k <= p@.len(),
            forall|j: int| 0 <= j < k ==> s@[i + j] == p@[j],
        decreases p@.len() - k,
    {
        if s[i + k] != p[k] {
            assert(s@.subrange(i as int, i + p@.len())[k as int] != p@[k as int]);
            return false;
        }
        k = k + 1;
    }
    assert(s@.subrange(i as int, i + p@.len()) =~= p@);
    true
}

/// The first place at or after `from` where `p` occurs in `s`.
pub fn find(s: &Vec<char>, p: &Vec<char>, from: usize) -> (r: Option<usize>)
    requires
        from <= s@.len(),
    ensures
        match r {
            Some(k) => from <= k && occurs_at(s@, p@, k as int) && forall|j: int|
                from <= j < k ==> !occurs_at(s@, p@, j),
            None => forall|j: int| from <= j ==> !occurs_at(s@, p@, j),
        },
{
    let mut i: usize = from;
    while i < s.len()
        invariant
            from <= i <= s@.len(),
            forall|j: int| from <= j < i ==> !occurs_at(s@, p@, j),
        decreases s@.len() - i,
    {
        if found_at(s, p, i) {
            return Some(i);
        }
        i = i + 1;
    }
    if found_at(s, p, i) {
        return Some(i);
    }
    None
}

/// `s` contains `p`.
pub fn contains(s: &str, p: &str) -> (r: bool)
    ensures
        r == has(s@, p@),
{
    let v = chars_of(s);
    let w = chars_of(p);
    match find(&v, &w, 0) {
        Some(k) => {
            assert(occurs_at(s@, p@, k as int));
            true
        },
        None => {
            assert forall|i: int| !occurs_at(s@, p@, i) by {
                if 0 <= i {
                }
            }
            false
        },
    }
}

/// `s` begins with `p`.
pub fn starts_with(s: &str, p: &str) -> (r: bool)
    ensures
        r == begins(s@, p@),
{
    let v = chars_of(s);
    let w = chars_of(p);
    found_at(&v, &w, 0)
}

/// `s` ends with `p`.
pub fn ends_with(s: &str, p: &str) -> (r: bool)
    ensures
        r == ends(s@, p@),
{
    let v = chars_of(s);
    let w = chars_of(p);
    if w.len() > v.len() {
        return false;
    }
    found_at(&v, &w, v.len() - w.len())
}

/// What follows `p` at the start of `s`, if `s` begins with `p`.
pub fn strip_prefix(s: &str, p: &str) -> (r: Option<String>)
    ensures
        opt_view(r) == if begins(s@, p@) {
            Some(s@.skip(p@.len() as int))
        } else {
            None
        },
{
    let v = chars_of(s);
    let w = chars_of(p);
    if found_at(&v, &w, 0) {
        let n: usize = v.len();
        let t = string_of(&v, w.len(), n);
        assert(t@ =~= s@.skip(p@.len() as int));
        Some(t)
    } else {
        None
    }
}

/// The position of the first `c` at or after `i`.
pub fn find_char(s: &Vec<char>, c: char, i: usize) -> (r: usize)
    requires
        i <= s@.len(),
    ensures
        r == index_from(s@, c, i as int),
        i <= r <= s@.len(),
{
    let mut k: usize = i;
    while k < s.len() && s[k] != c
        invariant
            i <= k <= s@.len(),
            index_from(s@, c, i as int) == index_from(s@, c, k as int),
        decreases s@.len() - k,
    {
        k = k + 1;
    }
    k
}

pub(crate) proof fn lemma_index_from_skip(s: Seq<char>, c: char, a: int, i: int)
    requires
        0 <= a <= s.len(),
        0 <= i <= s.len() - a,
    ensures
        index_from(s.skip(a), c, i) == index_from(s, c, a + i) - a,
    decreases s.len() - a - i,
{
    if i < s.len() - a {
        lemma_index_from_skip(s, c, a, i + 1);
    }
}

pub proof fn lemma_index_from(s: Seq<char>, c: char, i: int)
    requires
        0 <= i <= s.len(),
    ensures
        i <= index_from(s, c, i) <= s.len(),
        index_from(s, c, i) < s.len() ==> s[index_from(s, c, i)] == c,
        forall|j: int| i <= j < index_from(s, c, i) ==> s[j] != c,
    decreases s.len() - i,
{
    if i < s.len() {
        lemma_index_from(s, c, i + 1);
    }
}

/// The pieces of `s` between the separators `c`.
pub fn split_on(s: &str, c: char) -> (r: Vec<String>)
    ensures
        views(r@) == split(s@, c),
{
    let v = chars_of(s);
    let mut out: Vec<String> = Vec::new();
    let mut start: usize = 0;
    assert(s@.skip(0) =~= s@);
    assert(views(out@) + split(s@, c) =~= split(s@, c));
    loop
        invariant
            v@ == s@,
            start <= v@.len(),
            views(out@) + split(s@.skip(start as int), c) == split(s@, c),
        decreases v@.len() - start,
    {
        let k: usize = find_char(&v, c, start);
        proof {
            lemma_index_from_skip(s@, c, start as int, 0);
        }
        let piece = string_of(&v, start, k);
        let ghost before = views(out@);
        let ghost rest = s@.skip(start as int);
        out.push(piece);
        assert(views(out@) =~= before.push(piece@));
        if k == v.len() {
            assert(piece@ =~= rest);
            assert(views(out@) =~= split(s@, c));
            return out;
        }
        proof {
            assert(piece@ =~= rest.take(k - start));
            assert(rest.skip(k - start + 1) =~= s@.skip(k + 1));
            assert(before + (seq![piece@] + split(s@.skip(k + 1), c)) =~= views(out@) + split(
                s@.skip(k + 1),
                c,
            ));
        }
        start = k + 1;
    }
}

/// The pieces joined with `sep` between neighbours.
pub fn join_all(parts: &Vec<String>, sep: &str) -> (r: String)
    ensures
        r@ == join(views(parts@), sep@),
{
    let mut r = String::new();
    let mut i: usize = 0;
    while i < parts.len()
        invariant
            i <= parts@.len(),
            r@ == join(views(parts@).take(i as int), sep@),
        decreases parts@.len() - i,
    {
        proof {
            let a = views(parts@).take(i as int);
            let b = views(parts@).take(i + 1);
            assert(b.drop_last() =~= a);
            assert(b.last() == parts@[i as int]@);
            assert(i == 0 ==> r@ + parts@[i as int]@ =~= parts@[i as int]@);
        }
        if i > 0 {
            r.append(sep);
        }
        r.append(&parts[i]);
        i = i + 1;
    }
    assert(views(parts@).take(i as int) =~= views(parts@));
    r
}

/// Every occurrence of `p`, taken from the left, replaced by `r`.
pub fn replace(s: &str, p: &str, r: &str) -> (out: String)
    requires
        p@.len() > 0,
    ensures
        out@ == replaced(s@, p@, r@),
{
    let v = chars_of(s);
    let w = chars_of(p);
    let mut out = String::new();
    let mut i: usize = 0;
    assert(s@.skip(0) =~= s@);
    assert(out@ + replaced(s@, p@, r@) =~= replaced(s@, p@, r@));
    while i < v.len()
        invariant
            p@.len() > 0,
            v@ == s@,
            w@ == p@,
            i <= v@.len(),
            out@ + replaced(s@.skip(i as int), p@, r@) == replaced(s@, p@, r@),
        decreases v@.len() - i,
    {
        let ghost rest = s@.skip(i as int);
        let ghost before = out@;
        if found_at(&v, &w, i) {
            assert(rest.subrange(0, p@.len() as int) =~= s@.subrange(i as int, i + p@.len()));
            assert(rest.skip(p@.len() as int) =~= s@.skip(i + p@.len()));
            out.append(r);
            assert(before + (r@ + replaced(s@.skip(i + p@.len()), p@, r@)) =~= out@ + replaced(
                s@.skip(i + p@.len()),
                p@,
                r@,
            ));
            i = i + w.len();
        } else {
            assert(!occurs_at(rest, p@, 0)) by {
                if occurs_at(rest, p@, 0) {
                    assert(rest.subrange(0, p@.len() as int) =~= s@.subrange(
                        i as int,
                        i + p@.len(),
                    ));
                }
            }
            assert(rest.skip(1) =~= s@.skip(i + 1));
            out.push(v[i]);
            proof {
                let tail = replaced(s@.skip(i + 1), p@, r@);
                if rest.len() < p@.len() {
                    assert(tail =~= s@.skip(i + 1));
                    assert(replaced(rest, p@, r@) =~= rest);
                    assert(before + rest =~= out@ + tail);
                } else {
                    assert(before + (seq![rest[0]] + tail) =~= out@ + tail);
                }
            }
            i = i + 1;
        }
    }
    assert(replaced(s@.skip(i as int), p@, r@) =~= Seq::<char>::empty());
    assert(out@ =~= replaced(s@, p@, r@));
    out
}

/// How often `p` occurs in `s`, counted from the left without overlap.
pub fn count(s: &str, p: &str) -> (n: usize)
    requires
        p@.len() > 0,
    ensures
        n == occurrences(s@, p@),
{
    let v = chars_of(s);
    let w = chars_of(p);
    let mut n: usize = 0;
    let mut i: usize = 0;
    assert(s@.skip(0) =~= s@);
    while i < v.len()
        invariant
            p@.len() > 0,
            v@ == s@,
            w@ == p@,
            i <= v@.len(),
            n <= i,
            n + occurrences(s@.skip(i as int), p@) == occurrences(s@, p@),
        decreases v@.len() - i,
    {
        let ghost rest = s@.skip(i as int);
        if found_at(&v, &w, i) {
            assert(rest.subrange(0, p@.len() as int) =~= s@.subrange(i as int, i + p@.len()));
            assert(rest.skip(p@.len() as int) =~= s@.skip(i + p@.len()));
            n = n + 1;
            i = i + w.len();
        } else {
            assert(!occurs_at(rest, p@, 0)) by {
                if occurs_at(rest, p@, 0) {
                    assert(rest.subrange(0, p@.len() as int) =~= s@.subrange(
                        i as int,
                        i + p@.len(),
                    ));
                }
            }
            assert(rest.skip(1) =~= s@.skip(i + 1));
            i = i + 1;
        }
    }
    n
}

/// The digit character for a number below ten.
fn digit_char(d: u64) -> (c: char)
    requires
        d < 10,
    ensures
        c == digit(d as nat),
{
    match d {
        0 => '0',
        1 => '1',
        2 => '2',
        3 => '3',
        4 => '4',
        5 => '5',
        6 => '6',
        7 => '7',
        8 => '8',
        _ => '9',
    }
}

/// The decimal numeral of a number.
pub fn decimal(n: u64) -> (s: String)
    ensures
        s@ == dec(n as nat),
    decreases n,
{
    if n < 10 {
        let mut s = String::new();
        s.push(digit_char(n));
        assert(s@ =~= seq![digit(n as nat)]);
        s
    } else {
        let mut s = decimal(n / 10);
        s.push(digit_char(n % 10));
        s
    }
}

/// The decimal numeral of a wide number.
pub fn decimal_wide(n: u128) -> (s: String)
    ensures
        s@ == dec(n as nat),
    decreases n,
{
    if n < 10 {
        decimal(n as u64)
    } else {
        let mut s = decimal_wide(n / 10);
        s.push(digit_char((n % 10) as u64));
        s
    }
}

/// The decimal numeral of a size.
pub fn decimal_len(n: usize) -> (s: String)
    ensures
        s@ == dec(n as nat),
{
    decimal(n as u64)
}

/// The decimal numeral of a signed number.
pub fn decimal_signed(n: i64) -> (s: String)
    ensures
        s@ == dec_int(n as int),
{
    if n < 0 {
        let m: u64 = (-((n + 1) as i128) + 1) as u64;
        let d = decimal(m);
        let mut s = String::new();
        s.push('-');
        s.append(&d);
        assert(s@ =~= seq!['-'] + dec((-(n as int)) as nat));
        s
    } else {
        decimal(n as u64)
    }
}

/// The value of a digit character.
fn digit_value(c: char) -> (d: u64)
    requires
        is_digit(c),
    ensures
        d == c as nat - 48,
        d < 10,
{
    (c as u32 - 48) as u64
}

proof fn lemma_numeral_monotone(s: Seq<char>, i: int)
    requires
        0 <= i <= s.len(),
        forall|k: int| 0 <= k < s.len() ==> is_digit(#[trigger] s[k]),
    ensures
        numeral(s.take(i)) <= numeral(s),
    decreases s.len() - i,
{
    if i == s.len() {
        assert(s.take(i) =~= s);
    } else {
        lemma_numeral_monotone(s, i + 1);
        assert(s.take(i + 1).drop_last() =~= s.take(i));
        assert(s.take(i + 1).last() == s[i]);
    }
}

/// The number that a string of decimal digits stands for, when it fits.
pub fn parse_decimal(s: &str) -> (r: Option<u64>)
    ensures
        r == if is_numeral(s@) && numeral(s@) <= u64::MAX {
            Some(numeral(s@) as u64)
        } else {
            None
        },
{
    let v = chars_of(s);
    if v.len() == 0 {
        return None;
    }
    let mut i: usize = 0;
    while i < v.len()
        invariant
            v@ == s@,
            i <= v@.len(),
            forall|k: int| 0 <= k < i ==> is_digit(#[trigger] s@[k]),
        decreases v@.len() - i,
    {
        if v[i] < '0' || v[i] > '9' {
            return None;
        }
        i = i + 1;
    }
    let mut n: u64 = 0;
    let mut j: usize = 0;
    while j < v.len()
        invariant
            v@ == s@,
            is_numeral(s@),
            j <= v@.len(),
            n == numeral(s@.take(j as int)),
        decreases v@.len() - j,
    {
        proof {
            lemma_numeral_monotone(s@, j + 1);
            assert(s@.take(j + 1).drop_last() =~= s@.take(j as int));
            assert(s@.take(j + 1).last() == s@[j as int]);
        }
        let d: u64 = digit_value(v[j]);
        if n > (u64::MAX - d) / 10 {
            return None;
        }
        n = n * 10 + d;
        j = j + 1;
    }
    assert(s@.take(j as int) =~= s@);
    Some(n)
}

/// White space.
pub fn is_white(c: char) -> (r: bool)
    ensures
        r == is_space(c),
{
    ('\u{9}' <= c && c <= '\u{d}') || c == ' ' || c == '\u{85}' || c == '\u{a0}' || c
        == '\u{1680}' || ('\u{2000}' <= c && c <= '\u{200a}') || c == '\u{2028}' || c
        == '\u{2029}' || c == '\u{202f}' || c == '\u{205f}' || c == '\u{3000}'
}

/// The text without white space at either side.
pub fn trim(s: &str) -> (r: String)
    ensures
        r@ == trimmed(s@),
{
    let v = chars_of(s);
    let mut i: usize = 0;
    assert(s@.skip(0) =~= s@);
    while i < v.len() && is_white(v[i])
        invariant
            v@ == s@,
            i <= v@.len(),
            trim_start(s@.skip(i as int)) == trim_start(s@),
        decreases v@.len() - i,
    {
        assert(s@.skip(i as int).skip(1) =~= s@.skip(i + 1));
        i = i + 1;
    }
    let ghost t = s@.skip(i as int);
    let mut j: usize = v.len();
    assert(t.take(j - i) =~= t);
    while j > i && is_white(v[j - 1])
        invariant
            v@ == s@,
            i <= j <= v@.len(),
            t == s@.skip(i as int),
            trim_end(t.take(j - i)) == trim_end(t),
        decreases j,
    {
        assert(t.take(j - i).drop_last() =~= t.take(j - 1 - i));
        assert(t.take(j - i).last() == v@[j - 1]);
        j = j - 1;
    }
    let r = string_of(&v, i, j);
    assert(r@ =~= t.take(j - i));
    proof {
        if j > i {
            assert(t.take(j - i).last() == v@[j - 1]);
        }
    }
    r
}

/// The text with its ASCII letters in lower case.
pub fn to_lower(s: &str) -> (r: String)
    ensures
        r@ == lower(s@),
{
    let v = chars_of(s);
    let mut r = String::new();
    let mut i: usize = 0;
    while i < v.len()
        invariant
            v@ == s@,
            i <= v@.len(),
            r@ == lower(s@).take(i as int),
        decreases v@.len() - i,
    {
        let c = v[i];
        let d = if 'A' <= c && c <= 'Z' {
            ((c as u8) + 32) as char
        } else {
            c
        };
        assert(d == lower_char(c));
        r.push(d);
        assert(r@ =~= lower(s@).take(i + 1));
        i = i + 1;
    }
    assert(r@ =~= lower(s@));
    r
}

/// The text with its ASCII letters in upper case.
pub fn to_upper(s: &str) -> (r: String)
    ensures
        r@ == upper(s@),
{
    let v = chars_of(s);
    let mut r = String::new();
    let mut i: usize = 0;
    while i < v.len()
        invariant
            v@ == s@,
            i <= v@.len(),
            r@ == upper(s@).take(i as int),
        decreases v@.len() - i,
    {
        let c = v[i];
        let d = if 'a' <= c && c <= 'z' {
            ((c as u8) - 32) as char
        } else {
            c
        };
        assert(d == upper_char(c));
        r.push(d);
        assert(r@ =~= upper(s@).take(i + 1));
        i = i + 1;
    }
    assert(r@ =~= upper(s@));
    r
}

/// The text without the copies of a character at its start.
pub open spec fn without_leading(s: Seq<char>, c: char) -> Seq<char>
    decreases s.len(),
{
    if s.len() > 0 && s[0] == c {
        without_leading(s.skip(1), c)
    } else {
        s
    }
}

/// The text without the copies of a character at its start.
pub fn trim_leading(s: &str, c: char) -> (r: String)
    ensures
        r@ == without_leading(s@, c),
{
    let v = chars_of(s);
    let mut i: usize = 0;
    assert(s@.skip(0) =~= s@);
    while i < v.len() && v[i] == c
        invariant
            v@ == s@,
            i <= v@.len(),
            without_leading(s@, c) == without_leading(s@.skip(i as int), c),
        decreases v@.len() - i,
    {
        assert(s@.skip(i as int).skip(1) =~= s@.skip(i + 1));
        i = i + 1;
    }
    assert(s@.subrange(i as int, s@.len() as int) =~= s@.skip(i as int));
    string_of(&v, i, v.len())
}

/// The position of the first white space at or after `i`, or the length when
/// there is none.
pub open spec fn space_from(s: Seq<char>, i: int) -> int
    decreases s.len() - i,
{
    if i >= s.len() {
        s.len() as int
    } else if is_space(s[i]) {
        i
    } else {
        space_from(s, i + 1)
    }
}

proof fn lemma_space_from(s: Seq<char>, i: int)
    requires
        0 <= i <= s.len(),
    ensures
        i <= space_from(s, i) <= s.len(),
        i < s.len() && !is_space(s[i]) ==> i < space_from(s, i),
    decreases s.len() - i,
{
    if i < s.len() {
        lemma_space_from(s, i + 1);
    }
}

/// The words of a text from position `i` on: what stands between white space.
pub open spec fn words_from(s: Seq<char>, i: int) -> Seq<Seq<char>>
    decreases s.len() - i,
    when 0 <= i
    via words_decreases
{
    if i >= s.len() {
        seq![]
    } else if is_space(s[i]) {
        words_from(s, i + 1)
    } else {
        let j = space_from(s, i);
        seq![s.subrange(i, j)] + words_from(s, j)
    }
}

#[via_fn]
proof fn words_decreases(s: Seq<char>, i: int) {
    if i < s.len() {
        lemma_space_from(s, i);
        lemma_space_from(s, i + 1);
    }
}

/// The words of a text: what stands between white space.
pub open spec fn words(s: Seq<char>) -> Seq<Seq<char>> {
    words_from(s, 0)
}

/// The words of a text: what stands between white space.
pub fn split_words(s: &str) -> (r: Vec<String>)
    ensures
        views(r@) == words(s@),
{
    let v = chars_of(s);
    let n: usize = v.len();
    let mut out: Vec<String> = Vec::new();
    let mut i: usize = 0;
    assert(views(out@) + words_from(s@, 0) =~= words(s@));
    while i < n
        invariant
            v@ == s@,
            n == v@.len(),
            i <= n,
            views(out@) + words_from(s@, i as int) == words(s@),
        decreases n - i,
    {
        if is_white(v[i]) {
            i = i + 1;
        } else {
            let mut j: usize = i;
            proof {
                lemma_space_from(s@, i as int);
            }
            while j < n && !is_white(v[j])
                invariant
                    v@ == s@,
                    n == v@.len(),
                    i <= j <= n,
                    space_from(s@, i as int) == space_from(s@, j as int),
                decreases n - j,
            {
                j = j + 1;
            }
            let ghost so_far = views(out@);
            let word = string_of(&v, i, j);
            out.push(word);
            assert(views(out@) =~= so_far.push(s@.subrange(i as int, j as int)));
            assert(views(out@) + words_from(s@, j as int) =~= so_far + (seq![
                s@.subrange(i as int, j as int),
            ] + words_from(s@, j as int)));
            i = j;
        }
    }
    assert(views(out@) =~= words(s@));
    out
}

} // verus!
