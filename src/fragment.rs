//! The grammar of one record fragment, as the decoder reads it:
//!
//! ```text
//! fragment := ws* "<" tag ">" child* ws* "</" tag ">" ws*
//! child    := ws* "<" name ">" text "</" name ">"
//! ```
//!
//! `name` runs to the first `>`, `text` to the first `<`; `ws` is a space,
//! tab, line feed or carriage return. A child's text is kept with the
//! whitespace at both ends removed. Attributes, comments and nested
//! elements are not part of it.
use crate::extract::{close_tag, open_tag};
use vstd::prelude::*;

verus! {

pub open spec fn is_ws(c: u8) -> bool {
    c == 32 || c == 9 || c == 10 || c == 13
}

/// The first position from `i` on that does not hold whitespace.
pub open spec fn skip_ws(b: Seq<u8>, i: int) -> int
    decreases b.len() - i,
{
    if 0 <= i < b.len() && is_ws(b[i]) {
        skip_ws(b, i + 1)
    } else {
        i
    }
}

/// The position of the last whitespace byte of the run that ends at `k`,
/// or `k` when the byte before `k` is not whitespace.
pub open spec fn back_ws(t: Seq<u8>, k: int) -> int
    decreases k,
{
    if 0 < k <= t.len() && is_ws(t[k - 1]) {
        back_ws(t, k - 1)
    } else {
        k
    }
}

/// The first position from `i` on that holds `c`, or the length.
pub open spec fn find_byte(b: Seq<u8>, i: int, c: u8) -> int
    decreases b.len() - i,
{
    if i < 0 || i >= b.len() {
        b.len() as int
    } else if b[i] == c {
        i
    } else {
        find_byte(b, i + 1, c)
    }
}

pub open spec fn has_at(b: Seq<u8>, i: int, p: Seq<u8>) -> bool {
    0 <= i && i + p.len() <= b.len() && b.subrange(i, i + p.len() as int) == p
}

pub open spec fn trim_ws(t: Seq<u8>) -> Seq<u8> {
    let a = skip_ws(t, 0);
    let z = back_ws(t, t.len() as int);
    if z <= a {
        Seq::<u8>::empty()
    } else {
        t.subrange(a, z)
    }
}

pub open spec fn prepend(
    p: Seq<(Seq<u8>, Seq<u8>)>,
    o: Option<Seq<(Seq<u8>, Seq<u8>)>>,
) -> Option<Seq<(Seq<u8>, Seq<u8>)>> {
    match o {
        Some(r) => Some(p + r),
        None => None,
    }
}

/// The children, as (name, text) pairs, from position `i` up to the end of
/// the fragment.
pub open spec fn children_from(b: Seq<u8>, tag: Seq<u8>, i: int) -> Option<
    Seq<(Seq<u8>, Seq<u8>)>,
>
    decreases b.len() - i,
{
    let j = skip_ws(b, i);
    if has_at(b, j, close_tag(tag)) {
        if skip_ws(b, j + close_tag(tag).len()) == b.len() {
            Some(Seq::empty())
        } else {
            None
        }
    } else if 0 <= j < b.len() && b[j] == 60 {
        let k = find_byte(b, j + 1, 62);
        let m = find_byte(b, k + 1, 60);
        let name = b.subrange(j + 1, k);
        let e = m + close_tag(name).len();
        if k >= b.len() || m >= b.len() || !has_at(b, m, close_tag(name)) || e <= i || e > b.len() {
            None
        } else {
            prepend(seq![(name, trim_ws(b.subrange(k + 1, m)))], children_from(b, tag, e))
        }
    } else {
        None
    }
}

/// The children of a fragment whose record element is named `tag`; `None`
/// when the bytes do not follow the grammar.
pub open spec fn fragment_children(b: Seq<u8>, tag: Seq<u8>) -> Option<
    Seq<(Seq<u8>, Seq<u8>)>,
> {
    let j = skip_ws(b, 0);
    if has_at(b, j, open_tag(tag)) {
        children_from(b, tag, j + open_tag(tag).len())
    } else {
        None
    }
}

/// One child element of a fragment.
#[derive(Debug)]
pub struct Child {
    pub name: Vec<u8>,
    pub text: Vec<u8>,
}

pub open spec fn child_views(cs: Seq<Child>) -> Seq<(Seq<u8>, Seq<u8>)> {
    Seq::new(cs.len(), |i: int| (cs[i].name@, cs[i].text@))
}

proof fn lemma_skip_ws_bounds(b: Seq<u8>, i: int)
    requires
        0 <= i <= b.len(),
    ensures
        i <= skip_ws(b, i) <= b.len(),
    decreases b.len() - i,
{
    if 0 <= i < b.len() && is_ws(b[i]) {
        lemma_skip_ws_bounds(b, i + 1);
    }
}

proof fn lemma_find_byte_bounds(b: Seq<u8>, i: int, c: u8)
    requires
        0 <= i,
    ensures
        i <= find_byte(b, i, c) || find_byte(b, i, c) == b.len(),
        find_byte(b, i, c) <= b.len(),
        find_byte(b, i, c) < b.len() ==> b[find_byte(b, i, c)] == c,
    decreases b.len() - i,
{
    if i < b.len() && b[i] != c {
        lemma_find_byte_bounds(b, i + 1, c);
    }
}

fn skip_ws_exec(b: &[u8], i: usize) -> (r: usize)
    requires
        i <= b@.len(),
    ensures
        r == skip_ws(b@, i as int),
        i <= r <= b@.len(),
{
    let mut k = i;
    while k < b.len() && (b[k] == 32 || b[k] == 9 || b[k] == 10 || b[k] == 13)
        invariant
            i <= k <= b@.len(),
            skip_ws(b@, i as int) == skip_ws(b@, k as int),
        decreases b@.len() - k,
    {
        k = k + 1;
    }
    k
}

fn back_ws_exec(t: &[u8]) -> (r: usize)
    ensures
        r == back_ws(t@, t@.len() as int),
        r <= t@.len(),
{
    let mut k = t.len();
    while k > 0 && (t[k - 1] == 32 || t[k - 1] == 9 || t[k - 1] == 10 || t[k - 1] == 13)
        invariant
            k <= t@.len(),
            back_ws(t@, t@.len() as int) == back_ws(t@, k as int),
        decreases k,
    {
        k = k - 1;
    }
    k
}

fn find_byte_exec(b: &[u8], i: usize, c: u8) -> (r: usize)
    ensures
        r == find_byte(b@, i as int, c),
{
    if i >= b.len() {
        return b.len();
    }
    let mut k = i;
    while k < b.len() && b[k] != c
        invariant
            i <= k <= b@.len(),
            find_byte(b@, i as int, c) == find_byte(b@, k as int, c),
        decreases b@.len() - k,
    {
        k = k + 1;
    }
    k
}

fn has_at_exec(b: &[u8], i: usize, p: &[u8]) -> (r: bool)
    ensures
        r == has_at(b@, i as int, p@),
{
    let n = b.len();
    if i > n || p.len() > n - i {
        return false;
    }
    let mut k: usize = 0;
    while k < p.len()
        invariant
            n == b@.len(),
            i + p@.len() <= b@.len(),
            k <= p@.len(),
            b@.subrange(i as int, i + k) == p@.subrange(0, k as int),
        decreases p@.len() - k,
    {
        assert(i + k < b@.len());
        if b[i + k] != p[k] {
            assert(b@.subrange(i as int, i + p@.len())[k as int] != p@[k as int]);
            return false;
        }
        assert(b@.subrange(i as int, i + k + 1) =~= b@.subrange(i as int, i + k).push(b@[i + k]));
        assert(p@.subrange(0, k + 1) =~= p@.subrange(0, k as int).push(p@[k as int]));
        k = k + 1;
    }
    assert(p@.subrange(0, p@.len() as int) =~= p@);
    true
}

fn copy_range(b: &[u8], a: usize, z: usize) -> (r: Vec<u8>)
    requires
        a <= z <= b@.len(),
    ensures
        r@ == b@.subrange(a as int, z as int),
{
    let mut r: Vec<u8> = Vec::new();
    let mut k = a;
    while k < z
        invariant
            a <= k <= z <= b@.len(),
            r@ == b@.subrange(a as int, k as int),
        decreases z - k,
    {
        r.push(b[k]);
        assert(r@ =~= b@.subrange(a as int, k + 1));
        k = k + 1;
    }
    r
}

fn trim_exec(t: &[u8]) -> (r: Vec<u8>)
    ensures
        r@ == trim_ws(t@),
{
    let a = skip_ws_exec(t, 0);
    let z = back_ws_exec(t);
    if z <= a {
        Vec::new()
    } else {
        copy_range(t, a, z)
    }
}

fn close_tag_exec(name: &[u8]) -> (r: Vec<u8>)
    ensures
        r@ == close_tag(name@),
{
    let mut r: Vec<u8> = vec![60u8, 47u8];
    let mut k: usize = 0;
    while k < name.len()
        invariant
            k <= name@.len(),
            r@ == seq![60u8, 47u8] + name@.subrange(0, k as int),
        decreases name@.len() - k,
    {
        r.push(name[k]);
        assert(r@ =~= seq![60u8, 47u8] + name@.subrange(0, k + 1));
        k = k + 1;
    }
    r.push(62u8);
    assert(r@ =~= close_tag(name@));
    r
}

fn open_tag_exec(name: &[u8]) -> (r: Vec<u8>)
    ensures
        r@ == open_tag(name@),
{
    let mut r: Vec<u8> = vec![60u8];
    let mut k: usize = 0;
    while k < name.len()
        invariant
            k <= name@.len(),
            r@ == seq![60u8] + name@.subrange(0, k as int),
        decreases name@.len() - k,
    {
        r.push(name[k]);
        assert(r@ =~= seq![60u8] + name@.subrange(0, k + 1));
        k = k + 1;
    }
    r.push(62u8);
    assert(r@ =~= open_tag(name@));
    r
}

/// Reads the children of a fragment whose record element is named `tag`.
pub fn parse_fragment(b: &[u8], tag: &[u8]) -> (r: Option<Vec<Child>>)
    ensures
        match r {
            Some(cs) => fragment_children(b@, tag@) == Some(child_views(cs@)),
            None => fragment_children(b@, tag@) is None,
        },
{
    let n = b.len();
    let j0 = skip_ws_exec(b, 0);
    let open = open_tag_exec(tag);
    if !has_at_exec(b, j0, open.as_slice()) {
        return None;
    }
    let close = close_tag_exec(tag);
    assert(has_at(b@, j0 as int, open@));
    assert(j0 + open@.len() <= b@.len());
    let mut i: usize = j0 + open.len();
    let mut acc: Vec<Child> = Vec::new();
    let ghost start = i as int;
    assert(child_views(acc@) =~= Seq::<(Seq<u8>, Seq<u8>)>::empty());
    loop
        invariant
            n == b@.len(),
            i <= b@.len(),
            close@ == close_tag(tag@),
            fragment_children(b@, tag@) == children_from(b@, tag@, start),
            children_from(b@, tag@, start) == prepend(
                child_views(acc@),
                children_from(b@, tag@, i as int),
            ),
        decreases b@.len() - i,
    {
        let j = skip_ws_exec(b, i);
        if has_at_exec(b, j, close.as_slice()) {
            assert(j + close@.len() <= b@.len());
            let end = skip_ws_exec(b, j + close.len());
            if end == b.len() {
                assert(child_views(acc@) + Seq::<(Seq<u8>, Seq<u8>)>::empty() =~= child_views(
                    acc@,
                ));
                return Some(acc);
            } else {
                return None;
            }
        }
        if j >= b.len() || b[j] != 60 {
            return None;
        }
        let k = find_byte_exec(b, j + 1, 62);
        if k >= b.len() {
            return None;
        }
        let m = find_byte_exec(b, k + 1, 60);
        if m >= b.len() {
            return None;
        }
        proof {
            lemma_find_byte_bounds(b@, j + 1, 62);
            lemma_find_byte_bounds(b@, k + 1, 60);
        }
        let name = copy_range(b, j + 1, k);
        let closing = close_tag_exec(name.as_slice());
        if !has_at_exec(b, m, closing.as_slice()) {
            return None;
        }
        let e = m + closing.len();
        if e <= i {
            return None;
        }
        let raw = copy_range(b, k + 1, m);
        let text = trim_exec(raw.as_slice());
        let ghost before = child_views(acc@);
        acc.push(Child { name, text });
        proof {
            assert(child_views(acc@) =~= before + seq![(name@, text@)]);
            let rest = children_from(b@, tag@, e as int);
            match rest {
                Some(r) => {
                    assert(before + (seq![(name@, text@)] + r) =~= child_views(acc@) + r);
                },
                None => {},
            }
        }
        i = e;
    }
}

} // verus!
