//! Paths as JSON strings.
use vstd::prelude::*;

use crate::text::{begins, count, occurrences, occurs_at, replace, replaced};

verus! {

/// A hexadecimal digit, in lower case.
pub open spec fn hex(d: nat) -> char {
    if d < 10 {
        (48 + d) as char
    } else {
        (87 + d) as char
    }
}

/// A character inside a JSON string.
pub open spec fn escaped_char(c: char) -> Seq<char> {
    if c == '"' {
        seq!['\\', '"']
    } else if c == '\\' {
        seq!['\\', '\\']
    } else if c == '\u{8}' {
        seq!['\\', 'b']
    } else if c == '\u{c}' {
        seq!['\\', 'f']
    } else if c == '\n' {
        seq!['\\', 'n']
    } else if c == '\r' {
        seq!['\\', 'r']
    } else if c == '\t' {
        seq!['\\', 't']
    } else if (c as u32) < 32 {
        seq!['\\', 'u', '0', '0', hex((c as u32 as nat) / 16), hex((c as u32 as nat) % 16)]
    } else {
        seq![c]
    }
}

/// A text inside a JSON string.
pub open spec fn escaped(s: Seq<char>) -> Seq<char>
    decreases s.len(),
{
    if s.len() == 0 {
        seq![]
    } else {
        escaped_char(s[0]) + escaped(s.skip(1))
    }
}

/// A text as a JSON string, quoted.
pub open spec fn token(s: Seq<char>) -> Seq<char> {
    seq!['"'] + escaped(s) + seq!['"']
}

/// `to_string` of a `serde_json::Value::String`: the text in double quotes,
/// with the quote, the backslash and the control characters escaped and
/// everything else as it is.
#[verifier::external_body]
pub(crate) fn json_token(value: &str) -> (r: String)
    ensures
        r@ == token(value@),
{
    serde_json::Value::String(value.to_string()).to_string()
}

/// How often a path occurs in a text as a JSON string of its own.
pub fn count_json_token(content: &str, value: &str) -> (r: usize)
    ensures
        r == occurrences(content@, token(value@)),
{
    let t = json_token(value);
    count(content, &t)
}

/// A text in which every JSON string that is the one path is the other.
pub fn rewrite_tokens(content: &str, from: &str, to: &str) -> (r: String)
    ensures
        r@ == replaced(content@, token(from@), token(to@)),
{
    let a = json_token(from);
    let b = json_token(to);
    replace(content, &a, &b)
}

proof fn lemma_escape_shape(c: char)
    ensures
        escaped_char(c).len() > 0,
        escaped_char(c)[0] != '"',
        escaped_char(c)[0] == '\\' ==> escaped_char(c).len() >= 2,
        escaped_char(c)[0] != '\\' ==> escaped_char(c) == seq![c],
{
}

proof fn lemma_escape_prefix(a: char, b: char, x: Seq<char>, y: Seq<char>)
    requires
        begins(escaped_char(b) + y, escaped_char(a) + x),
    ensures
        a == b,
        begins(y, x),
{
    let p = escaped_char(a) + x;
    let s = escaped_char(b) + y;
    lemma_escape_shape(a);
    lemma_escape_shape(b);
    assert(s.subrange(0, p.len() as int) =~= p);
    assert forall|i: int| 0 <= i < p.len() implies s[i] == p[i] by {
        assert(s.subrange(0, p.len() as int)[i] == p[i]);
    }
    assert(s[0] == p[0]);
    if escaped_char(a)[0] != '\\' {
        assert(p[0] == a);
        assert(s[0] == escaped_char(b)[0]);
        assert(a == b);
    } else {
        assert(s[1] == p[1]);
        assert(s[1] == escaped_char(b)[1]);
        assert(p[1] == escaped_char(a)[1]);
        if escaped_char(a)[1] == 'u' {
            assert(s[4] == p[4] && s[5] == p[5]);
            assert(p[4] == escaped_char(a)[4] && p[5] == escaped_char(a)[5]);
            assert(escaped_char(b)[1] == 'u');
            assert(s[4] == escaped_char(b)[4] && s[5] == escaped_char(b)[5]);
            assert((a as nat) / 16 == (b as nat) / 16);
            assert((a as nat) % 16 == (b as nat) % 16);
        }
        assert(a == b);
    }
    let n = escaped_char(a).len() as int;
    assert(y.subrange(0, x.len() as int) =~= x) by {
        assert forall|i: int| 0 <= i < x.len() implies y[i] == x[i] by {
            assert(s[n + i] == p[n + i]);
        }
    }
}

proof fn lemma_quoted_prefix(a: Seq<char>, b: Seq<char>)
    requires
        begins(escaped(b) + seq!['"'], escaped(a) + seq!['"']),
    ensures
        a == b,
    decreases a.len(),
{
    let p = escaped(a) + seq!['"'];
    let s = escaped(b) + seq!['"'];
    assert(s.subrange(0, p.len() as int) =~= p);
    assert(s.subrange(0, p.len() as int)[0] == p[0]);
    if a.len() == 0 {
        if b.len() > 0 {
            lemma_escape_shape(b[0]);
            assert(s[0] == escaped_char(b[0])[0]);
        }
        assert(a =~= b);
    } else if b.len() == 0 {
        lemma_escape_shape(a[0]);
        assert(p[0] == escaped_char(a[0])[0]);
    } else {
        let x = escaped(a.skip(1)) + seq!['"'];
        let y = escaped(b.skip(1)) + seq!['"'];
        assert(p =~= escaped_char(a[0]) + x);
        assert(s =~= escaped_char(b[0]) + y);
        lemma_escape_prefix(a[0], b[0], x, y);
        lemma_quoted_prefix(a.skip(1), b.skip(1));
        assert(a =~= seq![a[0]] + a.skip(1));
        assert(b =~= seq![b[0]] + b.skip(1));
    }
}

/// A rewrite is of whole strings: where the string of a path begins with the
/// string of another, the paths are the same. A longer path that merely starts
/// with the one that is sought does not match.
pub proof fn lemma_tokens_are_whole(a: Seq<char>, b: Seq<char>)
    requires
        begins(token(b), token(a)),
    ensures
        a == b,
{
    let x = escaped(a) + seq!['"'];
    let y = escaped(b) + seq!['"'];
    assert(token(a) =~= seq!['"'] + x);
    assert(token(b) =~= seq!['"'] + y);
    assert(y.subrange(0, x.len() as int) =~= x) by {
        assert forall|i: int| 0 <= i < x.len() implies y[i] == x[i] by {
            assert(token(b).subrange(0, token(a).len() as int)[i + 1] == token(a)[i + 1]);
        }
    }
    lemma_quoted_prefix(a, b);
}

/// After the rewrite, the new string begins nowhere but where it was put.
pub open spec fn reversible(s: Seq<char>, from: Seq<char>, to: Seq<char>) -> bool
    decreases s.len(),
{
    if from.len() == 0 || s.len() < from.len() {
        occurrences(s, to) == 0
    } else if occurs_at(s, from, 0) {
        reversible(s.skip(from.len() as int), from, to)
    } else {
        !begins(replaced(s, from, to), to) && reversible(s.skip(1), from, to)
    }
}

proof fn lemma_no_occurrence(s: Seq<char>, p: Seq<char>, r: Seq<char>)
    requires
        occurrences(s, p) == 0,
    ensures
        replaced(s, p, r) == s,
    decreases s.len(),
{
    if p.len() > 0 && s.len() >= p.len() {
        lemma_no_occurrence(s.skip(1), p, r);
        assert(seq![s[0]] + s.skip(1) =~= s);
    }
}

/// The rewrite back undoes the rewrite, unless the new string began somewhere
/// else as well.
pub proof fn lemma_rewrite_is_undone(s: Seq<char>, from: Seq<char>, to: Seq<char>)
    requires
        reversible(s, from, to),
        to.len() > 0,
    ensures
        replaced(replaced(s, from, to), to, from) == s,
    decreases s.len(),
{
    if from.len() == 0 || s.len() < from.len() {
        lemma_no_occurrence(s, to, from);
    } else if occurs_at(s, from, 0) {
        let rest = s.skip(from.len() as int);
        lemma_rewrite_is_undone(rest, from, to);
        let r = replaced(s, from, to);
        assert(r.subrange(0, to.len() as int) =~= to);
        assert(r.skip(to.len() as int) =~= replaced(rest, from, to));
        assert(s.subrange(0, from.len() as int) =~= from);
        assert(from + rest =~= s);
    } else {
        let rest = s.skip(1);
        lemma_rewrite_is_undone(rest, from, to);
        let r = replaced(s, from, to);
        assert(r[0] == s[0]);
        assert(r.skip(1) =~= replaced(rest, from, to));
        assert(seq![s[0]] + rest =~= s);
        if r.len() < to.len() {
            assert(replaced(r, to, from) == r);
            assert(replaced(rest, from, to).len() < to.len());
            assert(replaced(replaced(rest, from, to), to, from) == replaced(rest, from, to));
        }
    }
}

proof fn lemma_nowhere(s: Seq<char>, p: Seq<char>, i: int)
    requires
        occurrences(s, p) == 0,
        p.len() > 0,
    ensures
        !occurs_at(s, p, i),
    decreases s.len(),
{
    if s.len() >= p.len() && i > 0 && occurs_at(s, p, i) {
        let rest = s.skip(1);
        assert(rest.subrange(i - 1, i - 1 + p.len()) =~= s.subrange(i, i + p.len()));
        lemma_nowhere(rest, p, i - 1);
    }
}

proof fn lemma_none_behind(s: Seq<char>, p: Seq<char>, k: int)
    requires
        occurrences(s, p) == 0,
        p.len() > 0,
        0 <= k <= s.len(),
    ensures
        occurrences(s.skip(k), p) == 0,
    decreases k,
{
    if k == 0 {
        assert(s.skip(0) =~= s);
    } else if s.len() >= p.len() {
        lemma_none_behind(s.skip(1), p, k - 1);
        assert(s.skip(1).skip(k - 1) =~= s.skip(k));
    }
}

/// Up to the first occurrence, replacing changes nothing.
proof fn lemma_replaced_head(s: Seq<char>, p: Seq<char>, r: Seq<char>, k: int)
    requires
        0 <= k <= s.len(),
        forall|i: int| 0 <= i < k ==> !occurs_at(s, p, i),
    ensures
        replaced(s, p, r) == s.take(k) + replaced(s.skip(k), p, r),
    decreases k,
{
    if k == 0 {
        assert(s.skip(0) =~= s);
        assert(s.take(0) + replaced(s, p, r) =~= replaced(s, p, r));
    } else if p.len() == 0 || s.len() < p.len() {
        assert(s.take(k) + s.skip(k) =~= s);
    } else {
        let rest = s.skip(1);
        assert(!occurs_at(s, p, 0));
        assert forall|i: int| 0 <= i < k - 1 implies !occurs_at(rest, p, i) by {
            if occurs_at(rest, p, i) {
                assert(s.subrange(i + 1, i + 1 + p.len()) =~= rest.subrange(i, i + p.len()));
                assert(occurs_at(s, p, i + 1));
            }
        }
        lemma_replaced_head(rest, p, r, k - 1);
        assert(rest.skip(k - 1) =~= s.skip(k));
        assert(seq![s[0]] + (rest.take(k - 1) + replaced(s.skip(k), p, r)) =~= s.take(k)
            + replaced(s.skip(k), p, r));
    }
}

proof fn lemma_escape_has_no_quote(c: char)
    requires
        c != '"',
    ensures
        forall|i: int| 0 <= i < escaped_char(c).len() ==> escaped_char(c)[i] != '"',
{
    let n = c as u32 as nat;
    if n < 32 {
        assert(hex(n / 16) as u32 >= 48);
        assert(hex(n % 16) as u32 >= 48);
    }
}

/// From a quote inside a string on, the string is that of a shorter text.
proof fn lemma_quote_inside(t: Seq<char>, i: int) -> (m: int)
    requires
        0 <= i < escaped(t).len(),
        escaped(t)[i] == '"',
    ensures
        0 <= m < t.len(),
        escaped(t).skip(i) == seq!['"'] + escaped(t.skip(m + 1)),
    decreases t.len(),
{
    let head = escaped_char(t[0]);
    let rest = t.skip(1);
    if i < head.len() {
        assert(head[i] == '"');
        if t[0] != '"' {
            lemma_escape_has_no_quote(t[0]);
        }
        assert(i == 1);
        assert(escaped(t).skip(1) =~= seq!['"'] + escaped(rest));
        0
    } else {
        let k = i - head.len();
        let m = lemma_quote_inside(rest, k);
        assert(escaped(t).skip(i) =~= escaped(rest).skip(k));
        assert(rest.skip(m + 1) =~= t.skip(m + 2));
        m + 1
    }
}

/// A string that is not in the text yet begins nowhere but where it is put: from
/// a quote inside a string on, it cannot go on as the string begins.
pub(crate) proof fn lemma_fresh_is_reversible(s: Seq<char>, from: Seq<char>, to: Seq<char>)
    requires
        occurrences(s, token(to)) == 0,
    ensures
        reversible(s, token(from), token(to)),
    decreases s.len(),
{
    let a = token(from);
    let b = token(to);
    if s.len() >= a.len() {
        if occurs_at(s, a, 0) {
            lemma_none_behind(s, b, a.len() as int);
            lemma_fresh_is_reversible(s.skip(a.len() as int), from, to);
        } else {
            lemma_none_behind(s, b, 1);
            lemma_fresh_is_reversible(s.skip(1), from, to);
            let r = replaced(s, a, b);
            if begins(r, b) {
                lemma_fresh_start(s, from, to);
            }
        }
    }
}

proof fn lemma_fresh_start(s: Seq<char>, from: Seq<char>, to: Seq<char>)
    requires
        occurrences(s, token(to)) == 0,
        !occurs_at(s, token(from), 0),
    ensures
        !begins(replaced(s, token(from), token(to)), token(to)),
{
    let a = token(from);
    let b = token(to);
    if occurrences(s, a) == 0 {
        lemma_no_occurrence(s, a, b);
        lemma_nowhere(s, b, 0);
    } else {
        let j = lemma_first(s, a);
        lemma_replaced_head(s, a, b, j);
        let behind = s.skip(j);
        assert(s.subrange(j, j + a.len()) =~= behind.subrange(0, a.len() as int));
        assert(occurs_at(behind, a, 0));
        let rest = replaced(behind.skip(a.len() as int), a, b);
        assert(replaced(s, a, b) == s.take(j) + (b + rest));
        assert(s[j] == '"') by {
            assert(behind.subrange(0, a.len() as int)[0] == a[0]);
        }
        lemma_nowhere(s, b, 0);
        if begins(replaced(s, a, b), b) {
            lemma_meet(s, to, rest, j);
        }
    }
}

/// A string that begins where the text does, before another is put into it,
/// would have been there without it.
proof fn lemma_meet(s: Seq<char>, to: Seq<char>, rest: Seq<char>, j: int)
    requires
        0 < j < s.len(),
        s[j] == '"',
        begins(s.take(j) + (token(to) + rest), token(to)),
    ensures
        begins(s, token(to)),
{
    let b = token(to);
    let r = s.take(j) + (b + rest);
    let n = b.len() as int;
    assert(forall|i: int| 0 <= i < n ==> b[i] == r.subrange(0, n)[i]);
    assert(r[j] == b[0]);
    if j < n - 1 {
        assert(b[j] == r[j]);
        assert(b[j] == escaped(to)[j - 1]);
        let m = lemma_quote_inside(to, j - 1);
        let tail = token(to.skip(m + 1));
        assert(b.skip(j) =~= escaped(to).skip(j - 1) + seq!['"']);
        assert(b.skip(j) =~= tail);
        assert forall|i: int| 0 <= i < tail.len() implies b[i] == tail[i] by {
            assert(tail[i] == b[j + i]);
            assert(b[j + i] == r[j + i]);
            assert(r[j + i] == b[i]);
        }
        assert(b.subrange(0, tail.len() as int) =~= tail);
        lemma_tokens_are_whole(to.skip(m + 1), to);
        assert(to.skip(m + 1).len() < to.len());
    }
    assert(n <= j + 1);
    assert forall|i: int| 0 <= i < n implies s[i] == b[i] by {
        assert(b[i] == r[i]);
        if i < j {
            assert(r[i] == s[i]);
        }
    }
    assert(s.subrange(0, n) =~= b);
}

/// The first occurrence.
proof fn lemma_first(s: Seq<char>, p: Seq<char>) -> (j: int)
    requires
        occurrences(s, p) > 0,
    ensures
        0 <= j,
        occurs_at(s, p, j),
        forall|i: int| 0 <= i < j ==> !occurs_at(s, p, i),
    decreases s.len(),
{
    if occurs_at(s, p, 0) {
        0
    } else {
        let rest = s.skip(1);
        let j = lemma_first(rest, p);
        assert(s.subrange(j + 1, j + 1 + p.len()) =~= rest.subrange(j, j + p.len()));
        assert forall|i: int| 0 <= i < j + 1 implies !occurs_at(s, p, i) by {
            if i > 0 && occurs_at(s, p, i) {
                assert(rest.subrange(i - 1, i - 1 + p.len()) =~= s.subrange(i, i + p.len()));
                assert(occurs_at(rest, p, i - 1));
            }
        }
        j + 1
    }
}

} // verus!
