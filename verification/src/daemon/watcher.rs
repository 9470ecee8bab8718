//! Which changes of files concern a session.
//!
//! Paths are byte strings, compared component by component: separators that
//! follow one another count as one, a trailing one counts for nothing, and so
//! does a component `.` that is not the first of a relative path.

use vstd::prelude::*;

verus! {

/// How long, in milliseconds, changes are gathered before they are reported.
pub const DEBOUNCE_MS: u64 = 250;

/// The byte that separates components, and stands for the root.
pub const SEPARATOR: u8 = 0x2f;

/// The byte that, alone, is the component for the current directory.
pub const DOT: u8 = 0x2e;

// ---------------------------------------------------------------------------
// Paths
// ---------------------------------------------------------------------------

/// What stands between the separators of a path.
pub open spec fn segments(p: Seq<u8>) -> Seq<Seq<u8>>
    decreases p.len(),
{
    if p.len() == 0 {
        seq![Seq::<u8>::empty()]
    } else {
        let before = segments(p.drop_last());
        if p.last() == SEPARATOR {
            before.push(Seq::empty())
        } else {
            before.drop_last().push(before.last().push(p.last()))
        }
    }
}

/// Whether a path starts at the root.
pub open spec fn is_rooted(p: Seq<u8>) -> bool {
    p.len() > 0 && p[0] == SEPARATOR
}

/// Whether the segment at a place of a path is a component of it.
pub open spec fn is_component(segment: Seq<u8>, place: int, rooted: bool) -> bool {
    &&& segment.len() > 0
    &&& segment == seq![DOT] ==> place == 0 && !rooted
}

/// The segments that are components.
pub open spec fn named(segs: Seq<Seq<u8>>, rooted: bool) -> Seq<Seq<u8>>
    decreases segs.len(),
{
    if segs.len() == 0 {
        Seq::empty()
    } else {
        let before = named(segs.drop_last(), rooted);
        if is_component(segs.last(), segs.len() - 1, rooted) {
            before.push(segs.last())
        } else {
            before
        }
    }
}

/// The component that stands for the root.
pub open spec fn root_component() -> Seq<u8> {
    seq![SEPARATOR]
}

/// The components of a path, the root among them where it starts there.
pub open spec fn components(p: Seq<u8>) -> Seq<Seq<u8>> {
    if is_rooted(p) {
        seq![root_component()] + named(segments(p), true)
    } else {
        named(segments(p), false)
    }
}

/// Whether `path` is `base` or lies below it.
pub open spec fn lies_in(path: Seq<u8>, base: Seq<u8>) -> bool {
    components(base).is_prefix_of(components(path))
}

/// The byte strings of a list.
pub open spec fn bytes_of(v: Seq<Vec<u8>>) -> Seq<Seq<u8>> {
    v.map_values(|b: Vec<u8>| b@)
}

fn same_bytes(a: &Vec<u8>, b: &Vec<u8>) -> (r: bool)
    ensures
        r == (a@ == b@),
{
    if a.len() != b.len() {
        return false;
    }
    let mut i: usize = 0;
    while i < a.len()
        invariant
            i <= a.len(),
            a.len() == b.len(),
            forall|j: int| 0 <= j < i ==> a@[j] == b@[j],
        decreases a.len() - i,
    {
        if a[i] != b[i] {
            return false;
        }
        i = i + 1;
    }
    assert(a@ =~= b@);
    true
}

fn clone_bytes(b: &Vec<u8>) -> (r: Vec<u8>)
    ensures
        r@ == b@,
{
    let r = b.clone();
    assert(r@ =~= b@);
    r
}

fn path_segments(p: &Vec<u8>, len: usize) -> (r: Vec<Vec<u8>>)
    requires
        len <= p.len(),
    ensures
        bytes_of(r@) == segments(p@.take(len as int)),
{
    let mut done: Vec<Vec<u8>> = Vec::new();
    let mut current: Vec<u8> = Vec::new();
    let mut i: usize = 0;
    assert(p@.take(0) =~= Seq::<u8>::empty());
    assert(bytes_of(done@).push(current@) =~= seq![Seq::<u8>::empty()]);
    while i < len
        invariant
            i <= len <= p.len(),
            bytes_of(done@).push(current@) == segments(p@.take(i as int)),
        decreases len - i,
    {
        let ghost before = bytes_of(done@).push(current@);
        proof {
            assert(p@.take(i + 1).drop_last() =~= p@.take(i as int));
            assert(before.drop_last() =~= bytes_of(done@));
            assert(before.last() == current@);
        }
        if p[i] == SEPARATOR {
            let mut finished: Vec<u8> = Vec::new();
            std::mem::swap(&mut finished, &mut current);
            let ghost old_done = done@;
            done.push(finished);
            assert(bytes_of(done@) =~= bytes_of(old_done).push(finished@));
            assert(bytes_of(done@) =~= before);
            assert(current@ =~= Seq::<u8>::empty());
        } else {
            current.push(p[i]);
        }
        i = i + 1;
    }
    let ghost old_done = done@;
    let ghost last = current@;
    done.push(current);
    assert(bytes_of(done@) =~= bytes_of(old_done).push(last));
    done
}

/// The components of the first `len` bytes of a path.
fn prefix_components(p: &Vec<u8>, len: usize) -> (r: Vec<Vec<u8>>)
    requires
        len <= p.len(),
    ensures
        bytes_of(r@) == components(p@.take(len as int)),
{
    let segs: Vec<Vec<u8>> = path_segments(p, len);
    let ghost all = bytes_of(segs@);
    let rooted: bool = len > 0 && p[0] == SEPARATOR;
    let mut out: Vec<Vec<u8>> = Vec::new();
    let ghost head: Seq<Seq<u8>> = if rooted {
        seq![root_component()]
    } else {
        Seq::empty()
    };
    if rooted {
        let mut root: Vec<u8> = Vec::new();
        root.push(SEPARATOR);
        assert(root@ =~= root_component());
        out.push(root);
    }
    assert(bytes_of(out@) =~= head);
    assert(all.take(0) =~= Seq::<Seq<u8>>::empty());
    assert(head + named(all.take(0), rooted) =~= head);
    let mut i: usize = 0;
    while i < segs.len()
        invariant
            i <= segs.len(),
            all == bytes_of(segs@),
            bytes_of(out@) == head + named(all.take(i as int), rooted),
        decreases segs.len() - i,
    {
        let segment: &Vec<u8> = &segs[i];
        proof {
            assert(all.take(i + 1).drop_last() =~= all.take(i as int));
            assert(all.take(i + 1).last() == segment@);
        }
        let is_dot: bool = segment.len() == 1 && segment[0] == DOT;
        assert(is_dot == (segment@ == seq![DOT])) by {
            if is_dot {
                assert(segment@ =~= seq![DOT]);
            }
        }
        let ghost before = out@;
        if segment.len() > 0 && (!is_dot || (i == 0 && !rooted)) {
            out.push(clone_bytes(segment));
            assert(bytes_of(out@) =~= bytes_of(before).push(segment@));
            assert(bytes_of(out@) =~= head + named(all.take(i + 1), rooted));
        }
        i = i + 1;
    }
    proof {
        assert(all.take(i as int) =~= all);
        let q = p@.take(len as int);
        assert(rooted == is_rooted(q));
        if !rooted {
            assert(head + named(all, rooted) =~= named(all, false));
        }
    }
    out
}

/// The components of a path.
fn path_components(p: &Vec<u8>) -> (r: Vec<Vec<u8>>)
    ensures
        bytes_of(r@) == components(p@),
{
    assert(p@.take(p.len() as int) =~= p@);
    prefix_components(p, p.len())
}

/// Whether the list `base` starts the list `list`.
fn starts_list(base: &Vec<Vec<u8>>, list: &Vec<Vec<u8>>) -> (r: bool)
    ensures
        r == bytes_of(base@).is_prefix_of(bytes_of(list@)),
{
    let ghost b = bytes_of(base@);
    let ghost l = bytes_of(list@);
    if base.len() > list.len() {
        return false;
    }
    let mut i: usize = 0;
    while i < base.len()
        invariant
            i <= base.len() <= list.len(),
            b == bytes_of(base@),
            l == bytes_of(list@),
            forall|j: int| 0 <= j < i ==> b[j] == l[j],
        decreases base.len() - i,
    {
        assert(b[i as int] == base@[i as int]@ && l[i as int] == list@[i as int]@);
        if !same_bytes(&base[i], &list[i]) {
            proof {
                if b.is_prefix_of(l) {
                    assert(l.subrange(0, b.len() as int)[i as int] == l[i as int]);
                }
            }
            return false;
        }
        i = i + 1;
    }
    assert(b =~= l.subrange(0, b.len() as int));
    true
}

/// Whether `path` is `base` or lies below it.
pub fn path_starts_with(path: &Vec<u8>, base: &Vec<u8>) -> (r: bool)
    ensures
        r == lies_in(path@, base@),
{
    let p: Vec<Vec<u8>> = path_components(path);
    let b: Vec<Vec<u8>> = path_components(base);
    starts_list(&b, &p)
}

/// Whether a path has a last component that is not the root.
pub open spec fn has_parent(p: Seq<u8>) -> bool {
    components(p).len() > 0 && components(p).last() != root_component()
}

/// Whether the first `k` bytes of a path name all its components but the last.
pub open spec fn names_parent(p: Seq<u8>, k: int) -> bool {
    components(p.take(k)) == components(p).drop_last()
}

/// Whether `q` is the shortest beginning of `p` that names all its components
/// but the last.
pub open spec fn is_parent(p: Seq<u8>, q: Seq<u8>) -> bool {
    &&& q.len() <= p.len()
    &&& q == p.take(q.len() as int)
    &&& names_parent(p, q.len() as int)
    &&& forall|k: int| 0 <= k < q.len() ==> !(#[trigger] names_parent(p, k))
}

/// The directory that a path lies in, where it has a last component.
pub fn parent(p: &Vec<u8>) -> (r: Option<Vec<u8>>)
    ensures
        r is Some <==> has_parent(p@),
        r is Some ==> is_parent(p@, (r->0)@),
{
    let mut above: Vec<Vec<u8>> = path_components(p);
    let ghost all = components(p@);
    if above.len() == 0 {
        return None;
    }
    let last: usize = above.len() - 1;
    let is_root: bool = above[last].len() == 1 && above[last][0] == SEPARATOR;
    proof {
        assert(all.last() == above@[last as int]@);
        if is_root {
            assert(all.last() =~= root_component());
        }
    }
    if is_root {
        return None;
    }
    above.truncate(last);
    proof {
        assert(bytes_of(above@) =~= all.drop_last());
        lemma_parent_exists(p@);
    }
    let mut k: usize = 0;
    while k <= p.len()
        invariant
            k <= p.len() + 1,
            has_parent(p@),
            bytes_of(above@) == components(p@).drop_last(),
            forall|j: int| 0 <= j < k ==> !(#[trigger] names_parent(p@, j)),
            exists|j: int| 0 <= j <= p.len() && #[trigger] names_parent(p@, j),
        decreases p.len() + 1 - k,
    {
        let found: Vec<Vec<u8>> = prefix_components(p, k);
        if found.len() == above.len() && starts_list(&found, &above) {
            proof {
                assert(bytes_of(found@) =~= bytes_of(above@));
                assert(names_parent(p@, k as int));
            }
            return Some(take_bytes(p, k));
        }
        proof {
            if names_parent(p@, k as int) {
                assert(bytes_of(found@).len() == bytes_of(above@).len());
                assert(bytes_of(found@) =~= bytes_of(above@).subrange(
                    0,
                    bytes_of(found@).len() as int,
                ));
            }
        }
        if k == p.len() {
            return None;
        }
        k = k + 1;
    }
    None
}

fn take_bytes(p: &Vec<u8>, k: usize) -> (r: Vec<u8>)
    requires
        k <= p.len(),
    ensures
        r@ == p@.take(k as int),
{
    let mut out: Vec<u8> = Vec::new();
    let mut i: usize = 0;
    while i < k
        invariant
            i <= k <= p.len(),
            out@ == p@.take(i as int),
        decreases k - i,
    {
        out.push(p[i]);
        i = i + 1;
    }
    out
}

/// A path up to its last segment.
proof fn lemma_cut(p: Seq<u8>)
    ensures
        segments(p).len() > 0,
        segments(p).last().len() <= p.len(),
        segments(p.take(p.len() - segments(p).last().len())) == segments(p).drop_last().push(
            Seq::<u8>::empty(),
        ),
    decreases p.len(),
{
    if p.len() == 0 {
        assert(p.take(0) =~= p);
        assert(segments(p).drop_last().push(Seq::<u8>::empty()) =~= segments(p));
    } else {
        let q = p.drop_last();
        lemma_cut(q);
        if p.last() == SEPARATOR {
            assert(p.take(p.len() as int) =~= p);
            assert(segments(p).drop_last().push(Seq::<u8>::empty()) =~= segments(p));
        } else {
            let k = p.len() - segments(p).last().len();
            assert(p.take(k) =~= q.take(k));
            assert(segments(p).drop_last() =~= segments(q).drop_last());
        }
    }
}

/// A path with a last component begins with a path that has all the others.
proof fn lemma_parent_exists(p: Seq<u8>)
    requires
        has_parent(p),
    ensures
        exists|k: int| 0 <= k <= p.len() && #[trigger] names_parent(p, k),
    decreases p.len(),
{
    lemma_cut(p);
    if p.len() == 0 {
        lemma_empty_path(p);
    } else {
        let q = p.drop_last();
        let rooted = is_rooted(p);
        let segs = segments(p);
        let place = segs.len() - 1;
        if is_component(segs.last(), place, rooted) {
            let k = p.len() - segs.last().len();
            let cut = p.take(k);
            let cut_segs = segs.drop_last().push(Seq::<u8>::empty());
            assert(cut_segs.drop_last() =~= segs.drop_last());
            assert(named(cut_segs, rooted) == named(segs.drop_last(), rooted));
            if k == 0 {
                lemma_single(p);
            }
            assert(is_rooted(cut) == rooted);
            assert(components(cut) =~= components(p).drop_last());
            assert(names_parent(p, k));
        } else {
            lemma_cut(q);
            if q.len() == 0 {
                assert(segments(q).drop_last() =~= Seq::<Seq<u8>>::empty());
                if p.last() != SEPARATOR {
                    assert(segs.last().len() == 1);
                    assert(segs.len() == 1);
                    assert(p[0] == p.last());
                    assert(false);
                } else {
                    assert(segs =~= seq![Seq::<u8>::empty(), Seq::<u8>::empty()]);
                    assert(named(segs.drop_last().drop_last(), true).len() == 0);
                    assert(named(segs.drop_last(), true).len() == 0);
                    assert(components(p).len() == 1);
                    assert(components(p)[0] == root_component());
                    assert(false);
                }
            }
            assert(is_rooted(q) == rooted);
            if p.last() == SEPARATOR {
                assert(segs.drop_last() =~= segments(q));
            } else {
                assert(segs.drop_last() =~= segments(q).drop_last());
                assert(segs.last() == seq![DOT]);
                assert(segments(q).last().len() == 0);
            }
            assert(named(segs, rooted) == named(segments(q), rooted));
            assert(components(p) == components(q));
            lemma_parent_exists(q);
            let k = choose|k: int| 0 <= k <= q.len() && #[trigger] names_parent(q, k);
            assert(p.take(k) =~= q.take(k));
            assert(names_parent(p, k));
        }
    }
}

proof fn lemma_empty_path(p: Seq<u8>)
    requires
        p.len() == 0,
    ensures
        components(p) == Seq::<Seq<u8>>::empty(),
{
    reveal_with_fuel(named, 2);
}

/// A path that is all one segment does not start at the root.
proof fn lemma_single(p: Seq<u8>)
    requires
        p.len() > 0,
        segments(p).last().len() == p.len(),
    ensures
        !is_rooted(p),
    decreases p.len(),
{
    let q = p.drop_last();
    lemma_cut(q);
    if q.len() > 0 && p.last() != SEPARATOR {
        lemma_single(q);
        assert(p[0] == q[0]);
    }
}

// ---------------------------------------------------------------------------
// Targets
// ---------------------------------------------------------------------------

/// What is watched for one path of a session.
#[derive(Debug)]
pub struct WatchTarget {
    /// The directory to watch.
    pub root: Vec<u8>,
    /// The file in it that counts; all below the directory counts where there
    /// is none.
    pub match_path: Option<Vec<u8>>,
    /// Whether what lies deeper is watched too.
    pub recursive: bool,
}

/// Whether `t` is what is to be watched for a path that is a file or not.
pub open spec fn is_target_for(t: WatchTarget, path: Seq<u8>, is_file: bool) -> bool {
    if is_file {
        &&& if has_parent(path) {
            is_parent(path, t.root@)
        } else {
            t.root@ == seq![DOT]
        }
        &&& t.match_path is Some && (t.match_path->0)@ == path
        &&& !t.recursive
    } else {
        &&& t.root@ == path
        &&& t.match_path is None
        &&& t.recursive
    }
}

/// What is to be watched for one path: its directory for a file, and the whole
/// of it for anything else.
pub fn watch_target(path: &Vec<u8>, is_file: bool) -> (r: WatchTarget)
    ensures
        is_target_for(r, path@, is_file),
{
    if is_file {
        let root: Vec<u8> = match parent(path) {
            Some(root) => root,
            None => {
                let mut here: Vec<u8> = Vec::new();
                here.push(DOT);
                assert(here@ =~= seq![DOT]);
                here
            },
        };
        WatchTarget { root, match_path: Some(clone_bytes(path)), recursive: false }
    } else {
        WatchTarget { root: clone_bytes(path), match_path: None, recursive: true }
    }
}

/// What is to be watched for the paths of a session, each given with whether it
/// is a file.
pub fn start_watcher(paths: &Vec<(Vec<u8>, bool)>) -> (r: Vec<WatchTarget>)
    ensures
        r.len() == paths.len(),
        forall|i: int|
            0 <= i < r.len() ==> is_target_for(#[trigger] r@[i], paths@[i].0@, paths@[i].1),
{
    let mut out: Vec<WatchTarget> = Vec::new();
    let mut i: usize = 0;
    while i < paths.len()
        invariant
            i <= paths.len(),
            out.len() == i,
            forall|j: int|
                0 <= j < i ==> is_target_for(#[trigger] out@[j], paths@[j].0@, paths@[j].1),
        decreases paths.len() - i,
    {
        out.push(watch_target(&paths[i].0, paths[i].1));
        i = i + 1;
    }
    out
}

/// Whether a change at `path` concerns the target: a change of its file, or of
/// a directory that the file lies in; or, where it has no file, a change
/// anywhere in its directory.
pub open spec fn concerns(path: Seq<u8>, t: WatchTarget) -> bool {
    match t.match_path {
        Some(file) => components(path) == components(file@) || lies_in(file@, path),
        None => lies_in(path, t.root@),
    }
}

/// Whether a change at `path` concerns one of the targets.
pub open spec fn concerns_any(path: Seq<u8>, targets: Seq<WatchTarget>) -> bool {
    exists|i: int| 0 <= i < targets.len() && concerns(path, #[trigger] targets[i])
}

/// Whether a change at `path` concerns one of the targets.
pub fn matches_target(path: &Vec<u8>, targets: &Vec<WatchTarget>) -> (r: bool)
    ensures
        r == concerns_any(path@, targets@),
{
    let mut i: usize = 0;
    while i < targets.len()
        invariant
            i <= targets.len(),
            forall|j: int| 0 <= j < i ==> !concerns(path@, #[trigger] targets@[j]),
        decreases targets.len() - i,
    {
        let hit: bool = match &targets[i].match_path {
            Some(file) => {
                proof {
                    if components(path@) == components(file@) {
                        lemma_prefix_of_itself(components(path@));
                    }
                }
                path_starts_with(file, path)
            },
            None => path_starts_with(path, &targets[i].root),
        };
        if hit {
            assert(concerns(path@, targets@[i as int]));
            return true;
        }
        i = i + 1;
    }
    false
}

proof fn lemma_prefix_of_itself(s: Seq<Seq<u8>>)
    ensures
        s.is_prefix_of(s),
{
    assert(s.subrange(0, s.len() as int) =~= s);
}

/// Of the paths at which something changed, those that concern a target, in
/// order.
pub fn changed_paths(events: &Vec<Vec<u8>>, targets: &Vec<WatchTarget>) -> (r: Vec<Vec<u8>>)
    ensures
        bytes_of(r@) == bytes_of(events@).filter(|e: Seq<u8>| concerns_any(e, targets@)),
{
    let ghost wanted = |e: Seq<u8>| concerns_any(e, targets@);
    let ghost all = bytes_of(events@);
    let mut out: Vec<Vec<u8>> = Vec::new();
    let mut i: usize = 0;
    proof {
        reveal(Seq::filter);
        assert(all.take(0) =~= Seq::<Seq<u8>>::empty());
        assert(bytes_of(out@) =~= all.take(0).filter(wanted));
    }
    while i < events.len()
        invariant
            i <= events.len(),
            all == bytes_of(events@),
            wanted == (|e: Seq<u8>| concerns_any(e, targets@)),
            bytes_of(out@) == all.take(i as int).filter(wanted),
        decreases events.len() - i,
    {
        let ghost before = out@;
        proof {
            reveal(Seq::filter);
            assert(all.take(i + 1).drop_last() =~= all.take(i as int));
            assert(all.take(i + 1).last() == events@[i as int]@);
        }
        if matches_target(&events[i], targets) {
            out.push(clone_bytes(&events[i]));
            assert(bytes_of(out@) =~= bytes_of(before).push(events@[i as int]@));
        }
        i = i + 1;
    }
    assert(all.take(i as int) =~= all);
    out
}

// ---------------------------------------------------------------------------
// Laws
// ---------------------------------------------------------------------------

/// What is joined to a path with a separator lies below it: so a watched
/// directory is concerned by every change below it.
pub proof fn law_joined_path_lies_below(base: Seq<u8>, rest: Seq<u8>)
    ensures
        lies_in(base.push(SEPARATOR) + rest, base),
{
    let joined = base.push(SEPARATOR) + rest;
    lemma_segments_of_join(base, rest);
    let rooted = is_rooted(base);
    if base.len() == 0 {
        lemma_empty_path(base);
        assert(components(joined).subrange(0, 0) =~= components(base));
    } else {
        assert(joined[0] == base[0]);
        lemma_named_of_concat(segments(base), segments(rest), rooted);
        let shorter = components(base);
        let longer = components(joined);
        assert(longer.subrange(0, shorter.len() as int) =~= shorter);
    }
}

proof fn lemma_segments_of_join(base: Seq<u8>, rest: Seq<u8>)
    ensures
        segments(base.push(SEPARATOR) + rest) == segments(base) + segments(rest),
    decreases rest.len(),
{
    let joined = base.push(SEPARATOR) + rest;
    lemma_cut(rest);
    if rest.len() == 0 {
        assert(joined =~= base.push(SEPARATOR));
        assert(joined.drop_last() =~= base);
        assert(segments(joined) =~= segments(base) + segments(rest));
    } else {
        let init = rest.drop_last();
        lemma_segments_of_join(base, init);
        lemma_cut(init);
        assert(joined.drop_last() =~= base.push(SEPARATOR) + init);
        assert(segments(joined) =~= segments(base) + segments(rest));
    }
}

proof fn lemma_named_of_concat(a: Seq<Seq<u8>>, b: Seq<Seq<u8>>, rooted: bool)
    ensures
        named(a, rooted).len() <= named(a + b, rooted).len(),
        named(a + b, rooted).take(named(a, rooted).len() as int) == named(a, rooted),
    decreases b.len(),
{
    let short = named(a, rooted);
    if b.len() == 0 {
        assert(a + b =~= a);
        assert(short.take(short.len() as int) =~= short);
    } else {
        lemma_named_of_concat(a, b.drop_last(), rooted);
        assert((a + b).drop_last() =~= a + b.drop_last());
        assert(named(a + b, rooted).take(short.len() as int) =~= short);
    }
}

/// To lie in a path is reflexive and transitive.
pub proof fn law_lying_in_is_an_order(a: Seq<u8>, b: Seq<u8>, c: Seq<u8>)
    ensures
        lies_in(a, a),
        lies_in(a, b) && lies_in(b, c) ==> lies_in(a, c),
{
    lemma_prefix_of_itself(components(a));
    if lies_in(a, b) && lies_in(b, c) {
        let (x, y, z) = (components(a), components(b), components(c));
        assert(z =~= x.subrange(0, z.len() as int)) by {
            assert forall|i: int| 0 <= i < z.len() implies z[i] == x[i] by {
                assert(z[i] == y.subrange(0, z.len() as int)[i]);
                assert(y[i] == x.subrange(0, y.len() as int)[i]);
            }
        }
    }
}

/// A watched file is concerned by its own changes and by those of the directory
/// it lies in, and by no change of another path at its depth or deeper, such as
/// another file in that directory.
pub proof fn law_watched_file(t: WatchTarget, file: Seq<u8>, other: Seq<u8>)
    requires
        is_target_for(t, file, true),
        has_parent(file),
    ensures
        concerns(file, t),
        concerns(t.root@, t),
        components(other).len() >= components(file).len() && components(other) != components(file)
            ==> !concerns(other, t),
{
    let whole = components(file);
    assert(whole.drop_last() =~= whole.subrange(0, whole.len() - 1));
    assert(lies_in(file, t.root@));
    if lies_in(file, other) && components(other).len() >= whole.len() {
        assert(components(other) =~= whole);
    }
}

/// A watched directory is concerned by exactly the changes of it and of what
/// lies below it.
pub proof fn law_watched_directory(t: WatchTarget, dir: Seq<u8>, path: Seq<u8>)
    requires
        is_target_for(t, dir, false),
    ensures
        concerns(path, t) <==> lies_in(path, dir),
        concerns(dir, t),
{
    lemma_prefix_of_itself(components(dir));
}

// ---------------------------------------------------------------------------
// Paths by their components
// ---------------------------------------------------------------------------

/// Whether a byte string can stand between two separators as a name.
pub open spec fn is_name(name: Seq<u8>) -> bool {
    name.len() > 0 && !name.contains(0x2f)
}

/// How a path is written tells its components. A name alone is one component,
/// and a name below the root comes after the root. A path, a separator and a
/// name are the components of the path and the name; but a separator, or a
/// separator and a dot, add nothing.
pub proof fn law_components_are_as_written(p: Seq<u8>, name: Seq<u8>)
    requires
        is_name(name),
    ensures
        components(Seq::empty()) == Seq::<Seq<u8>>::empty(),
        components(seq![0x2fu8]) == seq![seq![0x2fu8]],
        components(name) == seq![name],
        name != seq![0x2eu8] ==> components(seq![0x2fu8] + name) == seq![seq![0x2fu8], name],
        components(seq![0x2fu8, 0x2eu8]) == seq![seq![0x2fu8]],
        p.len() > 0 ==> components(p + seq![0x2fu8]) == components(p),
        p.len() > 0 ==> components(p + seq![0x2fu8] + seq![0x2eu8]) == components(p),
        p.len() > 0 && name != seq![0x2eu8] ==> components(p + seq![0x2fu8] + name) == components(
            p,
        ).push(name),
{
    let nothing = Seq::<u8>::empty();
    let dot = seq![0x2eu8];
    let root = seq![0x2fu8];
    lemma_empty_path(nothing);
    assert(dot.len() == 1 && dot[0] != 0x2f);
    lemma_segments_of_name(name);
    lemma_segments_of_name(dot);
    lemma_named_of_one(name, false);
    assert(components(name) =~= seq![name]);
    lemma_below_root(name);
    lemma_below_root(dot);
    assert(root =~= nothing.push(SEPARATOR) + nothing);
    lemma_segments_of_join(nothing, nothing);
    lemma_two_segments(nothing, nothing, true);
    assert(components(root) =~= seq![root]);
    assert(seq![0x2fu8, 0x2eu8] =~= root + dot);
    if p.len() > 0 {
        assert(p + root =~= p.push(SEPARATOR) + nothing);
        assert(p + root + dot =~= p.push(SEPARATOR) + dot);
        assert(p + root + name =~= p.push(SEPARATOR) + name);
        lemma_joined_name(p, nothing);
        lemma_joined_name(p, dot);
        lemma_joined_name(p, name);
    }
}

/// A name below the root.
proof fn lemma_below_root(name: Seq<u8>)
    requires
        is_name(name),
    ensures
        components(seq![0x2fu8] + name) == if name == seq![0x2eu8] {
            seq![seq![0x2fu8]]
        } else {
            seq![seq![0x2fu8], name]
        },
{
    let nothing = Seq::<u8>::empty();
    let p = seq![0x2fu8] + name;
    assert(p =~= nothing.push(SEPARATOR) + name);
    lemma_segments_of_join(nothing, name);
    lemma_segments_of_name(name);
    lemma_two_segments(nothing, name, true);
    if name == seq![0x2eu8] {
        assert(components(p) =~= seq![seq![0x2fu8]]);
    } else {
        assert(components(p) =~= seq![seq![0x2fu8], name]);
    }
}

/// The components of two segments, the first of them empty.
proof fn lemma_two_segments(first: Seq<u8>, second: Seq<u8>, rooted: bool)
    requires
        first.len() == 0,
        second.len() == 0 || is_name(second),
    ensures
        segments(first) == seq![first],
        named(seq![first] + seq![second], rooted) == if second.len() == 0 || second == seq![DOT] {
            Seq::<Seq<u8>>::empty()
        } else {
            seq![second]
        },
{
    reveal_with_fuel(named, 3);
    let both = seq![first] + seq![second];
    assert(first =~= Seq::<u8>::empty());
    assert(both.drop_last() =~= seq![first]);
    assert(seq![first].drop_last() =~= Seq::<Seq<u8>>::empty());
    assert(Seq::<Seq<u8>>::empty().push(second) =~= seq![second]);
}

/// A byte string without a separator is one segment.
proof fn lemma_segments_of_name(name: Seq<u8>)
    requires
        !name.contains(0x2f),
    ensures
        segments(name) == seq![name],
    decreases name.len(),
{
    if name.len() == 0 {
        assert(name =~= Seq::<u8>::empty());
    } else {
        let init = name.drop_last();
        assert forall|i: int| 0 <= i < init.len() implies init[i] != 0x2f by {
            assert(name.contains(name[i]));
        }
        assert(name.contains(name[name.len() - 1]));
        lemma_segments_of_name(init);
        assert(seq![init].drop_last() =~= Seq::<Seq<u8>>::empty());
        assert(init.push(name.last()) =~= name);
        assert(segments(name) =~= seq![name]);
    }
}

/// The components of one segment.
proof fn lemma_named_of_one(name: Seq<u8>, rooted: bool)
    requires
        name.len() > 0,
        !rooted,
    ensures
        named(seq![name], rooted) == seq![name],
{
    reveal_with_fuel(named, 2);
    assert(seq![name].drop_last() =~= Seq::<Seq<u8>>::empty());
    assert(Seq::<Seq<u8>>::empty().push(name) =~= seq![name]);
}

/// What a separator and a segment add to the components of a path.
proof fn lemma_joined_name(p: Seq<u8>, segment: Seq<u8>)
    requires
        p.len() > 0,
        !segment.contains(0x2f),
    ensures
        components(p.push(SEPARATOR) + segment) == if segment.len() == 0 || segment == seq![DOT] {
            components(p)
        } else {
            components(p).push(segment)
        },
{
    let whole = p.push(SEPARATOR) + segment;
    let rooted = is_rooted(p);
    lemma_segments_of_join(p, segment);
    lemma_segments_of_name(segment);
    lemma_segments_not_empty(p);
    assert(whole[0] == p[0]);
    let all = segments(p) + seq![segment];
    assert(all.drop_last() =~= segments(p));
    assert(components(whole) =~= if segment.len() == 0 || segment == seq![DOT] {
        components(p)
    } else {
        components(p).push(segment)
    });
}

proof fn lemma_segments_not_empty(p: Seq<u8>)
    ensures
        segments(p).len() > 0,
    decreases p.len(),
{
    if p.len() > 0 {
        lemma_segments_not_empty(p.drop_last());
    }
}

/// A path lies in another exactly where it has at least as many components and
/// agrees with it in every one of them, however many they are.
pub proof fn law_lying_in_takes_every_component(path: Seq<u8>, base: Seq<u8>)
    ensures
        lies_in(path, base) <==> {
            &&& components(base).len() <= components(path).len()
            &&& forall|i: int|
                0 <= i < components(base).len() ==> #[trigger] components(base)[i] == components(
                    path,
                )[i]
        },
{
    let b = components(base);
    let p = components(path);
    if b.is_prefix_of(p) {
        assert forall|i: int| 0 <= i < b.len() implies #[trigger] b[i] == p[i] by {
            assert(p.subrange(0, b.len() as int)[i] == p[i]);
        }
    }
    if b.len() <= p.len() && (forall|i: int| 0 <= i < b.len() ==> #[trigger] b[i] == p[i]) {
        assert(b =~= p.subrange(0, b.len() as int));
    }
}

/// A watched directory is not concerned by a change of a sibling, nor of
/// anything below one, whatever directory both lie in; nor by a change of that
/// directory.
pub proof fn law_siblings_do_not_concern(
    t: WatchTarget,
    dir: Seq<u8>,
    name: Seq<u8>,
    other: Seq<u8>,
    rest: Seq<u8>,
)
    requires
        dir.len() > 0,
        is_name(name) && name != seq![0x2eu8],
        is_name(other) && other != seq![0x2eu8],
        other != name,
        is_target_for(t, dir + seq![0x2fu8] + name, false),
    ensures
        !concerns(dir + seq![0x2fu8] + other, t),
        !concerns(dir + seq![0x2fu8] + other + seq![0x2fu8] + rest, t),
        !concerns(dir, t),
{
    let watched = dir + seq![0x2fu8] + name;
    let sibling = dir + seq![0x2fu8] + other;
    let below = sibling + seq![0x2fu8] + rest;
    let n = components(dir).len() as int;
    law_components_are_as_written(dir, name);
    law_components_are_as_written(dir, other);
    law_joined_path_lies_below(sibling, rest);
    assert(below =~= sibling.push(SEPARATOR) + rest);
    law_lying_in_takes_every_component(below, sibling);
    law_lying_in_takes_every_component(sibling, watched);
    law_lying_in_takes_every_component(below, watched);
    law_lying_in_takes_every_component(dir, watched);
    assert(components(watched)[n] == name);
    assert(components(sibling)[n] == other);
}

/// A change concerns a watched file exactly where every component of what
/// changed is the file's, in its place: the file itself, or a directory that it
/// lies in. It concerns a watched directory exactly where every component of
/// the directory is that of what changed.
pub proof fn law_changes_concern_by_component(t: WatchTarget, watched: Seq<u8>, path: Seq<u8>)
    ensures
        is_target_for(t, watched, true) ==> (concerns(path, t) <==> {
            &&& components(path).len() <= components(watched).len()
            &&& forall|i: int|
                0 <= i < components(path).len() ==> #[trigger] components(path)[i] == components(
                    watched,
                )[i]
        }),
        is_target_for(t, watched, false) ==> (concerns(path, t) <==> {
            &&& components(watched).len() <= components(path).len()
            &&& forall|i: int|
                0 <= i < components(watched).len() ==> #[trigger] components(watched)[i]
                    == components(path)[i]
        }),
{
    law_lying_in_takes_every_component(path, watched);
    law_lying_in_takes_every_component(watched, path);
}

/// A change concerns a list of targets where it concerns one of them: none of an
/// empty list, and those before or the last of a longer one.
pub proof fn law_one_target_is_enough(path: Seq<u8>, targets: Seq<WatchTarget>, t: WatchTarget)
    ensures
        !concerns_any(path, Seq::empty()),
        concerns_any(path, targets.push(t)) <==> concerns_any(path, targets) || concerns(path, t),
{
    let all = targets.push(t);
    if concerns_any(path, targets) {
        let i = choose|i: int| 0 <= i < targets.len() && concerns(path, #[trigger] targets[i]);
        assert(concerns(path, all[i]));
    }
    if concerns(path, t) {
        assert(concerns(path, all[targets.len() as int]));
    }
    if concerns_any(path, all) {
        let i = choose|i: int| 0 <= i < all.len() && concerns(path, #[trigger] all[i]);
        if i < targets.len() {
            assert(concerns(path, targets[i]));
        }
    }
}

/// A path with a component that is not the root has a parent: the shortest
/// beginning of it that has all its components but the last. The root, and a
/// path without components, have none.
pub proof fn law_parents_leave_out_the_last_component(p: Seq<u8>, q: Seq<u8>)
    ensures
        has_parent(p) <==> components(p).len() > 0 && components(p) != seq![seq![0x2fu8]],
        has_parent(p) && is_parent(p, q) ==> {
            let above = components(p).take(components(p).len() - 1);
            &&& components(q) == above
            &&& q.len() <= p.len() && q == p.take(q.len() as int)
            &&& forall|k: int| 0 <= k < q.len() ==> components(#[trigger] p.take(k)) != above
        },
{
    let all = components(p);
    lemma_root_comes_first(p);
    if all.len() == 1 {
        assert(all =~= seq![all.last()]);
        assert(all == seq![seq![0x2fu8]] <==> all[0] == seq![0x2fu8]) by {
            assert(seq![seq![0x2fu8]][0] == seq![0x2fu8]);
        }
    }
    if has_parent(p) {
        assert(all.drop_last() =~= all.take(all.len() - 1));
        if is_parent(p, q) {
            assert forall|k: int| 0 <= k < q.len() implies components(#[trigger] p.take(k))
                != all.take(all.len() - 1) by {
                assert(!names_parent(p, k));
            }
        }
    }
}

/// A file is watched through its parent, or the current directory where it has
/// none, by its own path, and not below that directory; anything else is watched
/// by its own path and below it.
pub proof fn law_targets_are_what_was_asked_for(t: WatchTarget, path: Seq<u8>)
    ensures
        is_target_for(t, path, true) ==> {
            &&& t.match_path is Some && (t.match_path->0)@ == path
            &&& !t.recursive
            &&& has_parent(path) ==> is_parent(path, t.root@)
            &&& !has_parent(path) ==> t.root@ == seq![0x2eu8]
        },
        is_target_for(t, path, false) ==> t.root@ == path && t.match_path is None && t.recursive,
{
}

/// The byte strings of a list are those of each, whole and in order.
pub proof fn law_byte_strings_are_whole(v: Seq<Vec<u8>>)
    ensures
        bytes_of(v).len() == v.len(),
        forall|i: int| 0 <= i < v.len() ==> #[trigger] bytes_of(v)[i] == v[i]@,
{
}

/// The root is a component of a path in the first place only.
proof fn lemma_root_comes_first(p: Seq<u8>)
    ensures
        components(p).len() > 1 ==> components(p).last() != root_component(),
{
    lemma_segments_hold_no_separator(p);
    lemma_named_are_segments(segments(p), is_rooted(p));
    let n = named(segments(p), is_rooted(p));
    if components(p).len() > 1 {
        assert(components(p).last() == n[n.len() - 1]);
        assert(root_component()[0] == 0x2f);
        if n[n.len() - 1] == root_component() {
            assert(n[n.len() - 1].contains(0x2f));
        }
    }
}

proof fn lemma_segments_hold_no_separator(p: Seq<u8>)
    ensures
        segments(p).len() > 0,
        forall|i: int| 0 <= i < segments(p).len() ==> !(#[trigger] segments(p)[i]).contains(0x2f),
    decreases p.len(),
{
    if p.len() > 0 {
        let before = segments(p.drop_last());
        let all = segments(p);
        lemma_segments_hold_no_separator(p.drop_last());
        assert forall|i: int| 0 <= i < all.len() implies !(#[trigger] all[i]).contains(0x2f) by {
            if i < before.len() - 1 {
                assert(all[i] == before[i]);
            } else if p.last() == SEPARATOR && i < before.len() {
                assert(all[i] == before[i]);
            } else if p.last() != SEPARATOR {
                let b = before[before.len() - 1];
                let s = all[i];
                assert(!b.contains(0x2f));
                assert(s == b.push(p.last()));
                assert forall|j: int| 0 <= j < s.len() implies s[j] != 0x2f by {
                    if j < b.len() {
                        assert(b.contains(b[j]));
                    }
                }
            }
        }
    }
}

proof fn lemma_named_are_segments(segs: Seq<Seq<u8>>, rooted: bool)
    requires
        forall|i: int| 0 <= i < segs.len() ==> !(#[trigger] segs[i]).contains(0x2f),
    ensures
        forall|i: int| 0 <= i < named(segs, rooted).len() ==> !(#[trigger] named(segs, rooted)[i]).contains(
            0x2f,
        ),
    decreases segs.len(),
{
    if segs.len() > 0 {
        let init = segs.drop_last();
        assert forall|i: int| 0 <= i < init.len() implies !(#[trigger] init[i]).contains(0x2f) by {
            assert(init[i] == segs[i]);
        }
        lemma_named_are_segments(init, rooted);
        let before = named(init, rooted);
        let all = named(segs, rooted);
        assert(!segs[segs.len() - 1].contains(0x2f));
        assert forall|i: int| 0 <= i < all.len() implies !(#[trigger] all[i]).contains(0x2f) by {
            if i < before.len() {
                assert(all[i] == before[i]);
            }
        }
    }
}

} // verus!
