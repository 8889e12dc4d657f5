//! Name handling shared by every lookup: space stripping, case folding and
//! the character-level helpers built on them.

use vstd::prelude::*;

verus! {

/// `s` with every space character removed, keeping the order of the rest.
pub open spec fn without_spaces(s: Seq<char>) -> Seq<char>
    decreases s.len(),
{
    if s.len() == 0 {
        Seq::empty()
    } else if s.last() == ' ' {
        without_spaces(s.drop_last())
    } else {
        without_spaces(s.drop_last()).push(s.last())
    }
}

/// What `str::to_lowercase` returns for a string with these characters.
pub uninterp spec fn lower_of(s: Seq<char>) -> Seq<char>;

/// The matching key of a name: spaces stripped, then lowercased.
pub open spec fn normalized(s: Seq<char>) -> Seq<char> {
    lower_of(without_spaces(s))
}

/// Relies on `String::push`: the character is appended at the end.
#[verifier::external_body]
pub(crate) fn push_char(s: &mut String, c: char)
    ensures
        final(s)@ == old(s)@.push(c),
{
    s.push(c)
}

/// Relies on `str::to_lowercase`: the result depends on the characters alone.
#[verifier::external_body]
fn lowercase(s: &str) -> (r: String)
    ensures
        r@ == lower_of(s@),
{
    s.to_lowercase()
}

/// The characters of `s`, in order.
pub fn chars_of(s: &str) -> (r: Vec<char>)
    ensures
        r@ == s@,
{
    let n = s.unicode_len();
    let mut r: Vec<char> = Vec::new();
    for i in 0..n
        invariant
            n == s@.len(),
            r@ == s@.take(i as int),
    {
        let c = s.get_char(i);
        r.push(c);
        assert(s@.take(i + 1) == s@.take(i as int).push(c));
    }
    assert(s@.take(n as int) == s@);
    r
}

/// `s` without its space characters.
pub fn strip_spaces(s: &str) -> (r: String)
    ensures
        r@ == without_spaces(s@),
{
    let n = s.unicode_len();
    let mut r = String::new();
    for i in 0..n
        invariant
            n == s@.len(),
            r@ == without_spaces(s@.take(i as int)),
    {
        let c = s.get_char(i);
        assert(s@.take(i + 1).drop_last() == s@.take(i as int));
        if c != ' ' {
            push_char(&mut r, c);
        }
    }
    assert(s@.take(n as int) == s@);
    r
}

/// Lowercases `s`.
pub fn to_lower(s: &str) -> (r: String)
    ensures
        r@ == lower_of(s@),
{
    lowercase(s)
}

/// The matching key of `s`: what two names share when they denote the same mod.
pub fn normalize_name(s: &str) -> (r: String)
    ensures
        r@ == normalized(s@),
{
    let stripped = strip_spaces(s);
    lowercase(stripped.as_str())
}

/// `base` and `part` joined by one path separator.
pub open spec fn joined(base: Seq<char>, part: Seq<char>) -> Seq<char> {
    base + seq!['/'] + part
}

/// Joins two path pieces with a `/`.
pub fn join_path(base: &str, part: &str) -> (r: String)
    ensures
        r@ == joined(base@, part@),
{
    let mut r = base.to_owned();
    push_char(&mut r, '/');
    r.append(part);
    r
}

/// The index of the first key equal to `key`, if any.
pub fn position_of_key(keys: &Vec<String>, key: &String) -> (r: Option<usize>)
    ensures
        match r {
            Some(i) => i < keys.len() && keys@[i as int]@ == key@ && forall|j: int|
                0 <= j < i ==> keys@[j]@ != key@,
            None => forall|j: int| 0 <= j < keys.len() ==> keys@[j]@ != key@,
        },
{
    for i in 0..keys.len()
        invariant
            forall|j: int| 0 <= j < i ==> keys@[j]@ != key@,
    {
        if keys[i] == *key {
            return Some(i);
        }
    }
    None
}

/// The part of `s` after the last `sep`; all of `s` when it holds none.
pub open spec fn after_last(s: Seq<char>, sep: char) -> Seq<char>
    decreases s.len(),
{
    if s.len() == 0 {
        s
    } else if s.last() == sep {
        Seq::empty()
    } else {
        after_last(s.drop_last(), sep).push(s.last())
    }
}

/// The part of `s` after the last `sep`, as `split(sep).last()` gives it.
pub fn segment_after_last(s: &str, sep: char) -> (r: String)
    ensures
        r@ == after_last(s@, sep),
{
    let n = s.unicode_len();
    let mut r = String::new();
    for i in 0..n
        invariant
            n == s@.len(),
            r@ == after_last(s@.take(i as int), sep),
    {
        let c = s.get_char(i);
        assert(s@.take(i + 1).drop_last() == s@.take(i as int));
        if c == sep {
            r = String::new();
        } else {
            push_char(&mut r, c);
        }
    }
    assert(s@.take(n as int) == s@);
    r
}

/// `needle` occurs in `hay` at position `k`.
pub open spec fn occurs_at(hay: Seq<char>, needle: Seq<char>, k: int) -> bool {
    0 <= k && k + needle.len() <= hay.len() && hay.subrange(k, k + needle.len()) == needle
}

/// `needle` occurs somewhere in `hay`.
pub open spec fn is_infix(needle: Seq<char>, hay: Seq<char>) -> bool {
    exists|k: int| #[trigger] occurs_at(hay, needle, k)
}

/// Whether `needle` occurs in `hay`, as `str::contains` with a string pattern.
pub fn contains_text(hay: &str, needle: &str) -> (r: bool)
    ensures
        r == is_infix(needle@, hay@),
{
    let h = chars_of(hay);
    let n = chars_of(needle);
    if n.len() > h.len() {
        proof {
            assert forall|k: int| !#[trigger] occurs_at(hay@, needle@, k) by {}
        }
        return false;
    }
    let last = h.len() - n.len();
    let mut k: usize = 0;
    while k <= last
        invariant
            h@ == hay@,
            n@ == needle@,
            last == h.len() - n.len(),
            k <= last + 1,
            forall|j: int| 0 <= j < k ==> !#[trigger] occurs_at(hay@, needle@, j),
        decreases last + 1 - k,
    {
        let mut same = true;
        let mut t: usize = 0;
        while t < n.len()
            invariant
                h@ == hay@,
                n@ == needle@,
                k <= last,
                last == h.len() - n.len(),
                t <= n.len(),
                same == (forall|u: int| 0 <= u < t ==> h@[k + u] == n@[u]),
            decreases n.len() - t,
        {
            if h[k + t] != n[t] {
                same = false;
            }
            t = t + 1;
        }
        if same {
            proof {
                assert(hay@.subrange(k as int, k + needle@.len()) =~= needle@);
                assert(occurs_at(hay@, needle@, k as int));
            }
            return true;
        }
        proof {
            let u = choose|u: int| 0 <= u < n.len() && h@[k + u] != n@[u];
            assert(hay@.subrange(k as int, k + needle@.len())[u] != needle@[u]);
        }
        k = k + 1;
    }
    proof {
        assert forall|j: int| !#[trigger] occurs_at(hay@, needle@, j) by {
            if 0 <= j < k {
            }
        }
    }
    false
}

} // verus!
