//! Character-sequence utilities shared by the CSV and text codecs: splitting
//! into lines, trimming whitespace, finding separators, and moving between
//! `String` and `Vec<char>`.

use vstd::prelude::*;
use vstd::string::StrSliceExecFns;

verus! {

// ---------------------------------------------------------------------------
// Trusted wrappers around std string functions that vstd leaves unspecified.
// ---------------------------------------------------------------------------

/// Relies on `String::push`: appends exactly the given character.
#[verifier::external_body]
pub fn push_char(s: &mut String, c: char)
    ensures
        final(s)@ == old(s)@.push(c),
{
    s.push(c);
}

/// Relies on `String::from_utf8`: succeeds exactly on valid UTF-8 input and
/// returns the string whose bytes are exactly the given bytes.
#[verifier::external_body]
pub fn string_from_utf8(bytes: Vec<u8>) -> (r: Option<String>)
    ensures
        r is Some <==> vstd::utf8::valid_utf8(bytes@),
        r matches Some(s) ==> vstd::utf8::encode_utf8(s@) == bytes@,
{
    match String::from_utf8(bytes) {
        Ok(s) => Some(s),
        Err(_) => None,
    }
}

// ---------------------------------------------------------------------------
// Conversions between String and Vec<char>.
// ---------------------------------------------------------------------------

/// The characters of a string slice, as a vector.
pub fn chars_of(s: &str) -> (r: Vec<char>)
    ensures
        r@ == s@,
{
    let n = s.unicode_len();
    let mut r: Vec<char> = Vec::new();
    let mut i: usize = 0;
    while i < n
        invariant
            n == s@.len(),
            i <= n,
            r@ == s@.take(i as int),
        decreases n - i,
    {
        let c = s.get_char(i);
        r.push(c);
        i = i + 1;
        proof {
            assert(r@ =~= s@.take(i as int));
        }
    }
    proof {
        assert(s@.take(n as int) =~= s@);
    }
    r
}

/// The string holding exactly the given characters.
pub fn string_of_chars(v: &Vec<char>) -> (r: String)
    ensures
        r@ == v@,
{
    let mut r = String::new();
    let mut i: usize = 0;
    while i < v.len()
        invariant
            i <= v.len(),
            r@ == v@.take(i as int),
        decreases v.len() - i,
    {
        push_char(&mut r, v[i]);
        i = i + 1;
        proof {
            assert(r@ =~= v@.take(i as int));
        }
    }
    proof {
        assert(v@.take(v@.len() as int) =~= v@);
    }
    r
}

/// Appends the given characters to a string.
pub fn push_chars(s: &mut String, v: &Vec<char>)
    ensures
        final(s)@ == old(s)@ + v@,
{
    let mut i: usize = 0;
    while i < v.len()
        invariant
            i <= v.len(),
            s@ == old(s)@ + v@.take(i as int),
        decreases v.len() - i,
    {
        push_char(s, v[i]);
        i = i + 1;
        proof {
            assert(old(s)@ + v@.take(i - 1).push(v@[i - 1]) =~= old(s)@ + v@.take(i as int));
        }
    }
    proof {
        assert(old(s)@ + v@.take(v@.len() as int) =~= old(s)@ + v@);
    }
}

/// The characters of `v` between `a` and `b`.
pub fn sub_chars(v: &Vec<char>, a: usize, b: usize) -> (r: Vec<char>)
    requires
        a <= b <= v@.len(),
    ensures
        r@ == v@.subrange(a as int, b as int),
{
    let mut r: Vec<char> = Vec::new();
    let mut k: usize = a;
    while k < b
        invariant
            a <= k <= b <= v@.len(),
            r@ == v@.subrange(a as int, k as int),
        decreases b - k,
    {
        r.push(v[k]);
        k = k + 1;
        proof {
            assert(r@ =~= v@.subrange(a as int, k as int));
        }
    }
    r
}

/// A copy of the character vector.
pub fn copy_chars(v: &Vec<char>) -> (r: Vec<char>)
    ensures
        r@ == v@,
{
    let r = sub_chars(v, 0, v.len());
    proof {
        assert(v@.subrange(0, v@.len() as int) =~= v@);
    }
    r
}

/// Whether two character vectors hold the same characters.
pub fn chars_eq(a: &Vec<char>, b: &Vec<char>) -> (r: bool)
    ensures
        r == (a@ == b@),
{
    if a.len() != b.len() {
        return false;
    }
    let mut i: usize = 0;
    while i < a.len()
        invariant
            a@.len() == b@.len(),
            i <= a@.len(),
            forall|j: int| 0 <= j < i ==> a@[j] == b@[j],
        decreases a.len() - i,
    {
        if a[i] != b[i] {
            return false;
        }
        i = i + 1;
    }
    proof {
        assert(a@ =~= b@);
    }
    true
}

// ---------------------------------------------------------------------------
// Finding a character.
// ---------------------------------------------------------------------------

/// Index of the first occurrence of `c` in `s`, or -1 when absent.
pub open spec fn spec_find(s: Seq<char>, c: char) -> int
    decreases s.len(),
{
    if s.len() == 0 {
        -1
    } else if s[0] == c {
        0
    } else {
        let r = spec_find(s.drop_first(), c);
        if r == -1 {
            -1
        } else {
            r + 1
        }
    }
}

/// Characterization of [`spec_find`]: -1 means no occurrence, otherwise it
/// is the first occurrence.
pub proof fn lemma_find(s: Seq<char>, c: char)
    ensures
        spec_find(s, c) == -1 ==> forall|j: int| 0 <= j < s.len() ==> s[j] != c,
        spec_find(s, c) != -1 ==> {
            &&& 0 <= spec_find(s, c) < s.len()
            &&& s[spec_find(s, c)] == c
            &&& forall|j: int| 0 <= j < spec_find(s, c) ==> s[j] != c
        },
    decreases s.len(),
{
    if s.len() == 0 {
    } else if s[0] == c {
    } else {
        lemma_find(s.drop_first(), c);
        let r = spec_find(s.drop_first(), c);
        if r == -1 {
            assert(forall|j: int| 0 <= j < s.len() ==> s[j] != c) by {
                assert(forall|j: int| 1 <= j < s.len() ==> s[j] == s.drop_first()[j - 1]);
            }
        } else {
            assert(forall|j: int| 1 <= j < r + 1 ==> s[j] == s.drop_first()[j - 1]);
        }
    }
}

/// The first occurrence of `c` in `a + [c] + b` is at `a.len()` when `a`
/// does not contain `c`.
pub proof fn lemma_find_concat(a: Seq<char>, b: Seq<char>, c: char)
    requires
        forall|j: int| 0 <= j < a.len() ==> a[j] != c,
    ensures
        spec_find(a + seq![c] + b, c) == a.len(),
{
    let s = a + seq![c] + b;
    lemma_find(s, c);
    assert(s[a.len() as int] == c);
    let f = spec_find(s, c);
    assert(f != -1);
    assert(forall|j: int| 0 <= j < a.len() ==> s[j] == a[j]);
    if f < a.len() {
        assert(s[f] == a[f]);
        assert(false);
    }
    if f > a.len() {
        assert(false);
    }
}

/// Index of the first occurrence of `c` in `v`, if any.
pub fn find_char(v: &Vec<char>, c: char) -> (r: Option<usize>)
    ensures
        r is Some <==> spec_find(v@, c) >= 0,
        r matches Some(i) ==> i as int == spec_find(v@, c),
{
    let mut i: usize = 0;
    while i < v.len()
        invariant
            i <= v@.len(),
            forall|j: int| 0 <= j < i ==> v@[j] != c,
        decreases v.len() - i,
    {
        if v[i] == c {
            proof {
                lemma_find(v@, c);
                assert(spec_find(v@, c) != -1);
                let f = spec_find(v@, c);
                if f < i {
                    assert(v@[f] != c);
                    assert(false);
                }
                if f > i {
                    assert(false);
                }
            }
            return Some(i);
        }
        i = i + 1;
    }
    proof {
        lemma_find(v@, c);
        if spec_find(v@, c) != -1 {
            assert(v@[spec_find(v@, c)] != c);
            assert(false);
        }
    }
    None
}

// ---------------------------------------------------------------------------
// Whitespace and trimming.
// ---------------------------------------------------------------------------

/// The whitespace characters recognized when trimming.
pub open spec fn is_ws(c: char) -> bool {
    c == ' ' || c == '\t' || c == '\r' || c == '\n'
}

/// Executable test of [`is_ws`].
pub fn is_ws_char(c: char) -> (r: bool)
    ensures
        r == is_ws(c),
{
    c == ' ' || c == '\t' || c == '\r' || c == '\n'
}

/// `s` without its leading whitespace.
pub open spec fn trim_start(s: Seq<char>) -> Seq<char>
    decreases s.len(),
{
    if s.len() > 0 && is_ws(s[0]) {
        trim_start(s.drop_first())
    } else {
        s
    }
}

/// `s` without its trailing whitespace.
pub open spec fn trim_end(s: Seq<char>) -> Seq<char>
    decreases s.len(),
{
    if s.len() > 0 && is_ws(s[s.len() - 1]) {
        trim_end(s.drop_last())
    } else {
        s
    }
}

/// `s` without leading and trailing whitespace.
pub open spec fn spec_trim(s: Seq<char>) -> Seq<char> {
    trim_end(trim_start(s))
}

/// [`trim_start`] drops exactly the leading run of whitespace.
pub proof fn lemma_trim_start_at(s: Seq<char>, i: int)
    requires
        0 <= i <= s.len(),
        forall|k: int| 0 <= k < i ==> is_ws(s[k]),
        i < s.len() ==> !is_ws(s[i]),
    ensures
        trim_start(s) == s.skip(i),
    decreases i,
{
    if i == 0 {
        assert(s.skip(0) =~= s);
    } else {
        let t = s.drop_first();
        assert(forall|k: int| 0 <= k < i - 1 ==> t[k] == s[k + 1]);
        lemma_trim_start_at(t, i - 1);
        assert(t.skip(i - 1) =~= s.skip(i));
    }
}

/// [`trim_end`] drops exactly the trailing run of whitespace.
pub proof fn lemma_trim_end_at(s: Seq<char>, j: int)
    requires
        0 <= j <= s.len(),
        forall|k: int| j <= k < s.len() ==> is_ws(s[k]),
        j > 0 ==> !is_ws(s[j - 1]),
    ensures
        trim_end(s) == s.take(j),
    decreases s.len() - j,
{
    if j == s.len() {
        assert(s.take(j) =~= s);
        if s.len() > 0 && is_ws(s[s.len() - 1]) {
            assert(false);
        }
    } else {
        let t = s.drop_last();
        lemma_trim_end_at(t, j);
        assert(t.take(j) =~= s.take(j));
    }
}

/// Trimming a sequence with no whitespace at either end changes nothing.
pub proof fn lemma_trim_id(s: Seq<char>)
    requires
        s.len() == 0 || (!is_ws(s[0]) && !is_ws(s[s.len() - 1])),
    ensures
        spec_trim(s) == s,
{
    lemma_trim_start_at(s, 0);
    assert(s.skip(0) =~= s);
    lemma_trim_end_at(s, s.len() as int);
    assert(s.take(s.len() as int) =~= s);
}

/// Trimming keeps a non-whitespace first character.
pub proof fn lemma_trim_first(s: Seq<char>)
    requires
        s.len() > 0,
        !is_ws(s[0]),
    ensures
        spec_trim(s).len() > 0,
        spec_trim(s)[0] == s[0],
    decreases s.len(),
{
    lemma_trim_start_at(s, 0);
    assert(s.skip(0) =~= s);
    lemma_trim_end_first(s);
}

/// [`trim_end`] keeps a non-whitespace first character.
pub proof fn lemma_trim_end_first(s: Seq<char>)
    requires
        s.len() > 0,
        !is_ws(s[0]),
    ensures
        trim_end(s).len() > 0,
        trim_end(s)[0] == s[0],
    decreases s.len(),
{
    if is_ws(s[s.len() - 1]) {
        assert(s.len() >= 2);
        lemma_trim_end_first(s.drop_last());
    }
}

/// `v` without leading and trailing whitespace.
pub fn trim(v: &Vec<char>) -> (r: Vec<char>)
    ensures
        r@ == spec_trim(v@),
{
    let n = v.len();
    let mut a: usize = 0;
    while a < n && is_ws_char(v[a])
        invariant
            n == v@.len(),
            a <= n,
            forall|k: int| 0 <= k < a ==> is_ws(v@[k]),
        decreases n - a,
    {
        a = a + 1;
    }
    proof {
        lemma_trim_start_at(v@, a as int);
    }
    if a == n {
        proof {
            assert(v@.skip(n as int) =~= Seq::<char>::empty());
        }
        let r: Vec<char> = Vec::new();
        return r;
    }
    let mut b: usize = n;
    while b > a + 1 && is_ws_char(v[b - 1])
        invariant
            n == v@.len(),
            a < b <= n,
            forall|k: int| b <= k < n ==> is_ws(v@[k]),
        decreases b,
    {
        b = b - 1;
    }
    // at this point either b == a + 1 or v[b-1] is not whitespace; when
    // b == a + 1, v[a] is not whitespace, so v[b-1] is not whitespace
    proof {
        let t = v@.skip(a as int);
        assert(forall|k: int| (b - a) <= k < t.len() ==> t[k] == v@[k + a]);
        assert(!is_ws(t[b - a - 1]));
        lemma_trim_end_at(t, b - a);
        assert(t.take(b - a) =~= v@.subrange(a as int, b as int));
    }
    let mut r: Vec<char> = Vec::new();
    let mut k: usize = a;
    while k < b
        invariant
            a <= k <= b <= v@.len(),
            r@ == v@.subrange(a as int, k as int),
        decreases b - k,
    {
        r.push(v[k]);
        k = k + 1;
        proof {
            assert(r@ =~= v@.subrange(a as int, k as int));
        }
    }
    r
}

// ---------------------------------------------------------------------------
// Splitting into lines.
// ---------------------------------------------------------------------------

/// `s` split on `'\n'`, keeping empty pieces; never empty.
pub open spec fn spec_split_lines(s: Seq<char>) -> Seq<Seq<char>>
    decreases s.len(),
{
    if s.len() == 0 {
        seq![Seq::<char>::empty()]
    } else if s[0] == '\n' {
        seq![Seq::<char>::empty()] + spec_split_lines(s.drop_first())
    } else {
        let rest = spec_split_lines(s.drop_first());
        rest.update(0, seq![s[0]] + rest[0])
    }
}

/// A line with one trailing carriage return removed.
pub open spec fn strip_cr(l: Seq<char>) -> Seq<char> {
    if l.len() > 0 && l[l.len() - 1] == '\r' {
        l.drop_last()
    } else {
        l
    }
}

/// Each line of `ls` with a trailing carriage return removed.
pub open spec fn map_strip_cr(ls: Seq<Seq<char>>) -> Seq<Seq<char>> {
    ls.map(|i: int, l: Seq<char>| strip_cr(l))
}

/// The lines of `s`: split on `'\n'`, each with one trailing `'\r'` removed.
pub open spec fn spec_lines(s: Seq<char>) -> Seq<Seq<char>> {
    map_strip_cr(spec_split_lines(s))
}

/// Splitting always yields at least one line.
pub proof fn lemma_split_lines_len(s: Seq<char>)
    ensures
        spec_split_lines(s).len() >= 1,
    decreases s.len(),
{
    if s.len() == 0 {
    } else {
        lemma_split_lines_len(s.drop_first());
    }
}

/// Splitting a line, a newline, and a remainder yields the line followed by
/// the remainder's lines.
pub proof fn lemma_split_lines_concat(a: Seq<char>, b: Seq<char>)
    requires
        forall|j: int| 0 <= j < a.len() ==> a[j] != '\n',
    ensures
        spec_split_lines(a + seq!['\n'] + b) == seq![a] + spec_split_lines(b),
    decreases a.len(),
{
    let s = a + seq!['\n'] + b;
    if a.len() == 0 {
        assert(s[0] == '\n');
        assert(s.drop_first() =~= b);
        assert(seq![Seq::<char>::empty()] + spec_split_lines(b) =~~= seq![a] + spec_split_lines(
            b,
        ));
    } else {
        assert(s[0] == a[0]);
        assert(s[0] != '\n');
        let a2 = a.drop_first();
        assert(s.drop_first() =~= a2 + seq!['\n'] + b);
        lemma_split_lines_concat(a2, b);
        let rest = seq![a2] + spec_split_lines(b);
        lemma_split_lines_len(b);
        assert(rest[0] == a2);
        assert(rest.update(0, seq![s[0]] + a2) =~= seq![a] + spec_split_lines(b)) by {
            assert(seq![s[0]] + a2 =~= a);
        }
    }
}

/// Prefixing characters onto the first piece of a split.
pub open spec fn prepend_first(c: Seq<char>, ls: Seq<Seq<char>>) -> Seq<Seq<char>> {
    ls.update(0, c + ls[0])
}

/// A character vector's deep view is its view.
pub proof fn lemma_deep_chars(v: &Vec<char>)
    ensures
        v.deep_view() == v@,
{
    assert(v.deep_view() =~= v@);
}

/// Pushing a line onto a vector of lines pushes its deep view.
pub proof fn lemma_deep_view_push(a: Vec<Vec<char>>, b: Vec<Vec<char>>, x: Vec<char>)
    requires
        b@ == a@.push(x),
    ensures
        b.deep_view() == a.deep_view().push(x@),
{
    lemma_deep_chars(&x);
    assert(b.deep_view() =~= a.deep_view().push(x@));
}

/// The lines of `v`: split on `'\n'`, each stripped of one trailing `'\r'`.
pub fn lines_of(v: &Vec<char>) -> (r: Vec<Vec<char>>)
    ensures
        r.deep_view() == spec_lines(v@),
{
    let mut r: Vec<Vec<char>> = Vec::new();
    let mut cur: Vec<char> = Vec::new();
    let mut i: usize = 0;
    proof {
        assert(v@.skip(0) =~= v@);
        assert(prepend_first(Seq::<char>::empty(), spec_split_lines(v@)) =~= spec_split_lines(v@))
            by {
            lemma_split_lines_len(v@);
            assert(Seq::<char>::empty() + spec_split_lines(v@)[0] =~= spec_split_lines(v@)[0]);
        }
        assert(r.deep_view() + map_strip_cr(spec_split_lines(v@)) =~= spec_lines(v@));
    }
    while i < v.len()
        invariant
            i <= v@.len(),
            spec_lines(v@) == r.deep_view() + map_strip_cr(
                prepend_first(cur@, spec_split_lines(v@.skip(i as int))),
            ),
        decreases v.len() - i,
    {
        let c = v[i];
        proof {
            assert(v@.skip(i as int)[0] == v@[i as int]);
            assert(v@.skip(i as int).drop_first() =~= v@.skip(i + 1));
            lemma_split_lines_len(v@.skip(i + 1));
        }
        if c == '\n' {
            proof {
                let old_state = prepend_first(cur@, spec_split_lines(v@.skip(i as int)));
                let new_state = prepend_first(
                    Seq::<char>::empty(),
                    spec_split_lines(v@.skip(i + 1)),
                );
                assert(spec_split_lines(v@.skip(i as int)) == seq![Seq::<char>::empty()]
                    + spec_split_lines(v@.skip(i + 1)));
                assert(old_state =~= seq![cur@] + new_state) by {
                    assert(cur@ + Seq::<char>::empty() =~= cur@);
                    assert(Seq::<char>::empty() + spec_split_lines(v@.skip(i + 1))[0]
                        =~= spec_split_lines(v@.skip(i + 1))[0]);
                }
                assert(map_strip_cr(old_state) =~= seq![strip_cr(cur@)] + map_strip_cr(new_state));
            }
            let ghost cur0 = cur@;
            if cur.len() > 0 && cur[cur.len() - 1] == '\r' {
                cur.pop();
            }
            proof {
                assert(cur@ == strip_cr(cur0));
            }
            let ghost r0 = r;
            let ghost curv = cur;
            r.push(cur);
            cur = Vec::new();
            proof {
                lemma_deep_view_push(r0, r, curv);
            }
        } else {
            proof {
                let ls = spec_split_lines(v@.skip(i + 1));
                assert(spec_split_lines(v@.skip(i as int)) == ls.update(0, seq![c] + ls[0]));
                assert(prepend_first(cur@, ls.update(0, seq![c] + ls[0])) =~= prepend_first(
                    cur@.push(c),
                    ls,
                )) by {
                    assert(cur@ + (seq![c] + ls[0]) =~= cur@.push(c) + ls[0]);
                }
            }
            cur.push(c);
        }
        i = i + 1;
    }
    proof {
        assert(v@.skip(v@.len() as int) =~= Seq::<char>::empty());
        let last_state = prepend_first(cur@, spec_split_lines(Seq::<char>::empty()));
        assert(last_state =~= seq![cur@]) by {
            assert(cur@ + Seq::<char>::empty() =~= cur@);
        }
        assert(map_strip_cr(last_state) =~= seq![strip_cr(cur@)]);
    }
    let ghost curf = cur@;
    if cur.len() > 0 && cur[cur.len() - 1] == '\r' {
        cur.pop();
    }
    proof {
        assert(cur@ == strip_cr(curf));
    }
    let ghost r0 = r;
    let ghost curv = cur;
    r.push(cur);
    proof {
        lemma_deep_view_push(r0, r, curv);
        assert(r.deep_view() =~= spec_lines(v@));
    }
    r
}

} // verus!
