//! Host paths as bytes, with the rules that Unix has for them.

use vstd::prelude::*;

verus! {

/// The separator of path components.
pub const SLASH: u8 = 0x2F;

/// The component that stands for the directory it is in.
pub const DOT: u8 = 0x2E;

/// A path is absolute if it begins with a separator.
pub open spec fn is_absolute(p: Seq<u8>) -> bool {
    p.len() > 0 && p[0] == SLASH
}

/// `name`, seen from `base`. An absolute name stands for itself. Otherwise the
/// two are joined by one separator, unless `base` is empty or ends in one.
pub open spec fn joined(base: Seq<u8>, name: Seq<u8>) -> Seq<u8> {
    if is_absolute(name) {
        name
    } else if base.len() == 0 || base.last() == SLASH {
        base + name
    } else {
        base.push(SLASH) + name
    }
}

/// Index of the first separator from `i` on, or the length.
pub open spec fn slash_from(p: Seq<u8>, i: int) -> int
    decreases p.len() - i,
{
    if i >= p.len() {
        p.len() as int
    } else if p[i] == SLASH {
        i
    } else {
        slash_from(p, i + 1)
    }
}

/// The components from index `i` on. Empty ones do not count, and neither does
/// a dot that is not the path's start.
pub open spec fn components_from(p: Seq<u8>, i: int) -> Seq<Seq<u8>>
    decreases p.len() + 1 - i,
    when 0 <= i
    via slash_decreases
{
    if i >= p.len() {
        Seq::empty()
    } else {
        let j = slash_from(p, i);
        let part = p.subrange(i, j);
        let rest = components_from(p, j + 1);
        if part.len() == 0 || (part == seq![DOT] && i != 0) {
            rest
        } else {
            seq![part] + rest
        }
    }
}

#[via_fn]
proof fn slash_decreases(p: Seq<u8>, i: int) {
    if i < p.len() {
        lemma_slash(p, i);
    }
}

proof fn lemma_slash(p: Seq<u8>, i: int)
    requires
        0 <= i <= p.len(),
    ensures
        i <= slash_from(p, i) <= p.len(),
    decreases p.len() - i,
{
    if i < p.len() && p[i] != SLASH {
        lemma_slash(p, i + 1);
    }
}

/// Two paths are the same if both or neither are absolute and their components
/// are the same.
pub open spec fn same_path(a: Seq<u8>, b: Seq<u8>) -> bool {
    is_absolute(a) == is_absolute(b) && components_from(a, 0) == components_from(b, 0)
}

/// Joins a name to a path.
pub fn join(base: &[u8], name: &[u8]) -> (r: Vec<u8>)
    ensures
        r@ == joined(base@, name@),
{
    if name.len() > 0 && name[0] == SLASH {
        return vstd::slice::slice_to_vec(name);
    }
    let mut r = vstd::slice::slice_to_vec(base);
    if base.len() > 0 && base[base.len() - 1] != SLASH {
        r.push(SLASH);
    }
    crate::bytes::push_bytes(&mut r, name);
    r
}

fn find_slash(p: &[u8], i: usize) -> (r: usize)
    requires
        i < p@.len(),
    ensures
        r == slash_from(p@, i as int),
        i <= r <= p@.len(),
{
    let mut j: usize = i;
    while j < p.len()
        invariant
            i <= j <= p@.len(),
            slash_from(p@, i as int) == slash_from(p@, j as int),
        decreases p@.len() - j,
    {
        if p[j] == SLASH {
            return j;
        }
        j = j + 1;
    }
    j
}

/// The components of a path.
fn components(p: &[u8]) -> (r: Vec<Vec<u8>>)
    ensures
        r@.len() == components_from(p@, 0).len(),
        forall|k: int| 0 <= k < r@.len() ==> (#[trigger] r@[k])@ == components_from(p@, 0)[k],
{
    let mut r: Vec<Vec<u8>> = Vec::new();
    let ghost mut done: Seq<Seq<u8>> = Seq::empty();
    let mut i: usize = 0;
    while i < p.len()
        invariant
            r@.len() == done.len(),
            forall|k: int| 0 <= k < r@.len() ==> (#[trigger] r@[k])@ == done[k],
            done + components_from(p@, i as int) == components_from(p@, 0),
            i <= p@.len() + 1,
        decreases p@.len() + 1 - i,
    {
        let j: usize = find_slash(p, i);
        let part = vstd::slice::slice_to_vec(vstd::slice::slice_subrange(p, i, j));
        let ghost rest = components_from(p@, j + 1);
        let dot = part.len() == 1 && part[0] == DOT;
        proof {
            assert(dot == (part@ == seq![DOT])) by {
                if dot {
                    assert(part@ =~= seq![DOT]);
                }
            }
        }
        if !(part.len() == 0 || (dot && i != 0)) {
            proof {
                assert(done + (seq![part@] + rest) =~= done.push(part@) + rest);
                done = done.push(part@);
            }
            r.push(part);
        }
        if j == p.len() {
            proof {
                assert(rest =~= Seq::<Seq<u8>>::empty());
                assert(done + rest =~= done);
            }
            return r;
        }
        i = j + 1;
    }
    assert(done + components_from(p@, i as int) =~= done);
    r
}

/// Whether two runs of bytes are the same.
pub fn same_bytes(a: &[u8], b: &[u8]) -> (r: bool)
    ensures
        r == (a@ == b@),
{
    if a.len() != b.len() {
        return false;
    }
    let mut i: usize = 0;
    while i < a.len()
        invariant
            a@.len() == b@.len(),
            i <= a@.len(),
            forall|k: int| 0 <= k < i ==> #[trigger] a@[k] == b@[k],
        decreases a@.len() - i,
    {
        if a[i] != b[i] {
            return false;
        }
        i = i + 1;
    }
    assert(a@ =~= b@);
    true
}

/// Whether two paths are the same.
pub fn is_same_path(a: &[u8], b: &[u8]) -> (r: bool)
    ensures
        r == same_path(a@, b@),
{
    let abs_a = a.len() > 0 && a[0] == SLASH;
    let abs_b = b.len() > 0 && b[0] == SLASH;
    if abs_a != abs_b {
        return false;
    }
    let ca = components(a);
    let cb = components(b);
    if ca.len() != cb.len() {
        return false;
    }
    let mut i: usize = 0;
    while i < ca.len()
        invariant
            i <= ca@.len(),
            ca@.len() == cb@.len(),
            ca@.len() == components_from(a@, 0).len(),
            cb@.len() == components_from(b@, 0).len(),
            forall|k: int| 0 <= k < ca@.len() ==> (#[trigger] ca@[k])@ == components_from(a@, 0)[k],
            forall|k: int| 0 <= k < cb@.len() ==> (#[trigger] cb@[k])@ == components_from(b@, 0)[k],
            forall|k: int|
                0 <= k < i ==> components_from(a@, 0)[k] == #[trigger] components_from(b@, 0)[k],
        decreases ca@.len() - i,
    {
        if !same_bytes(ca[i].as_slice(), cb[i].as_slice()) {
            return false;
        }
        i = i + 1;
    }
    assert(components_from(a@, 0) =~= components_from(b@, 0));
    true
}

/// The last component of a path, unless it stands for a directory above or for
/// the one that the path starts from.
pub open spec fn file_name(p: Seq<u8>) -> Option<Seq<u8>> {
    let parts = components_from(p, 0);
    if parts.len() == 0 || parts.last() == seq![DOT] || parts.last() == seq![DOT, DOT] {
        None
    } else {
        Some(parts.last())
    }
}

/// Finds the last component of a path.
pub fn last_name(p: &[u8]) -> (r: Option<Vec<u8>>)
    ensures
        match file_name(p@) {
            Some(n) => r is Some && r->0@ == n,
            None => r is None,
        },
{
    let mut i: usize = 0;
    let mut from: usize = 0;
    let mut to: usize = 0;
    let ghost mut before: Seq<Seq<u8>> = Seq::empty();
    assert(before + components_from(p@, 0) =~= components_from(p@, 0));
    while i < p.len()
        invariant
            i <= p@.len() + 1,
            from <= to <= p@.len(),
            components_from(p@, 0) == before + components_from(p@, i as int),
            before.len() == 0 <==> from == to,
            before.len() > 0 ==> before.last() == p@.subrange(from as int, to as int),
        decreases p@.len() + 1 - i,
    {
        let j: usize = find_slash(p, i);
        let dot = j - i == 1 && p[i] == DOT && i != 0;
        let ghost part = p@.subrange(i as int, j as int);
        let ghost rest = components_from(p@, j + 1);
        proof {
            if dot {
                assert(part =~= seq![DOT]);
            }
            if part == seq![DOT] {
                assert(part.len() == 1 && part[0] == DOT);
            }
        }
        if j > i && !dot {
            from = i;
            to = j;
            proof {
                assert(before + (seq![part] + rest) =~= before.push(part) + rest);
                before = before.push(part);
            }
        }
        assert(p@.len() == p.len());
        if j == p.len() {
            i = j;
            assert(rest =~= components_from(p@, j as int));
        } else {
            i = j + 1;
        }
    }
    assert(before + components_from(p@, i as int) =~= before);
    let name = vstd::slice::slice_subrange(p, from, to);
    let n: usize = name.len();
    if n == 0 || (n == 1 && name[0] == DOT) || (n == 2 && name[0] == DOT && name[1] == DOT) {
        assert(before.len() > 0 ==> before.last() =~= seq![DOT] || before.last() =~= seq![DOT, DOT]);
        return None;
    }
    Some(vstd::slice::slice_to_vec(name))
}

} // verus!
