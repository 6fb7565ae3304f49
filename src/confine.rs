//! Confinement of extraction output to a chosen root directory.
//!
//! A relative file name taken from untrusted metadata is reduced to its
//! normal components: empty, `.` and `..` components are dropped, so the
//! path that results names a location strictly below the root.

use vstd::prelude::*;

verus! {

/// The path separator `/`.
pub const SEPARATOR: u8 = 0x2f;

/// The byte `.`.
pub const DOT: u8 = 0x2e;

/// The `/`-separated components of `s`, empty ones included.
pub open spec fn split_path(s: Seq<u8>) -> Seq<Seq<u8>>
    decreases s.len(),
{
    if s.len() == 0 {
        seq![Seq::empty()]
    } else {
        let p = split_path(s.drop_last());
        if s.last() == SEPARATOR {
            p.push(Seq::empty())
        } else {
            p.update(p.len() - 1, p.last().push(s.last()))
        }
    }
}

/// A component that names an entry below its directory: not empty, `.`
/// or `..`.
pub open spec fn is_normal_component(c: Seq<u8>) -> bool {
    &&& c.len() > 0
    &&& c != seq![DOT]
    &&& c != seq![DOT, DOT]
}

/// The normal components of `cs`, in order.
pub open spec fn normal_components(cs: Seq<Seq<u8>>) -> Seq<Seq<u8>>
    decreases cs.len(),
{
    if cs.len() == 0 {
        Seq::empty()
    } else {
        let k = normal_components(cs.drop_last());
        if is_normal_component(cs.last()) {
            k.push(cs.last())
        } else {
            k
        }
    }
}

/// The components joined by single separators.
pub open spec fn join_path(cs: Seq<Seq<u8>>) -> Seq<u8>
    decreases cs.len(),
{
    if cs.len() == 0 {
        Seq::empty()
    } else if cs.len() == 1 {
        cs[0]
    } else {
        join_path(cs.drop_last()) + seq![SEPARATOR] + cs.last()
    }
}

/// The normal components of a file name.
pub open spec fn name_components(name: Seq<u8>) -> Seq<Seq<u8>> {
    normal_components(split_path(name))
}

/// Where a file of the given name is written below `root`.
pub open spec fn confined_target(root: Seq<u8>, name: Seq<u8>) -> Seq<u8> {
    root + seq![SEPARATOR] + join_path(name_components(name))
}

/// A component that stays inside its directory: normal and free of
/// separators.
pub open spec fn is_safe_component(c: Seq<u8>) -> bool {
    &&& is_normal_component(c)
    &&& forall|k: int| 0 <= k < c.len() ==> c[k] != SEPARATOR
}

/// `p` is `root`, a separator, then one or more safe components joined by
/// separators: a location strictly below `root`.
pub open spec fn is_below(root: Seq<u8>, p: Seq<u8>) -> bool {
    exists|cs: Seq<Seq<u8>>|
        {
            &&& cs.len() > 0
            &&& forall|i: int| 0 <= i < cs.len() ==> is_safe_component(#[trigger] cs[i])
            &&& p == root + seq![SEPARATOR] + join_path(cs)
        }
}

proof fn lemma_split_shape(s: Seq<u8>)
    ensures
        split_path(s).len() >= 1,
        forall|i: int, k: int|
            0 <= i < split_path(s).len() && 0 <= k < split_path(s)[i].len() ==> #[trigger] split_path(
                s,
            )[i][k] != SEPARATOR,
    decreases s.len(),
{
    if s.len() > 0 {
        lemma_split_shape(s.drop_last());
        let p = split_path(s.drop_last());
        if s.last() != SEPARATOR {
            let q = p.update(p.len() - 1, p.last().push(s.last()));
            assert forall|i: int, k: int| 0 <= i < q.len() && 0 <= k < q[i].len() implies q[i][k]
                != SEPARATOR by {
                if i == p.len() - 1 && k == p.last().len() {
                } else {
                    assert(q[i][k] == p[i][k]);
                }
            }
        } else {
            let q = p.push(Seq::<u8>::empty());
            assert forall|i: int, k: int| 0 <= i < q.len() && 0 <= k < q[i].len() implies q[i][k]
                != SEPARATOR by {
                assert(q[i][k] == p[i][k]);
            }
        }
    }
}

proof fn lemma_normal_components_safe(cs: Seq<Seq<u8>>)
    requires
        forall|i: int, k: int| 0 <= i < cs.len() && 0 <= k < cs[i].len() ==> #[trigger] cs[i][k] != SEPARATOR,
    ensures
        forall|i: int|
            0 <= i < normal_components(cs).len() ==> is_safe_component(
                #[trigger] normal_components(cs)[i],
            ),
    decreases cs.len(),
{
    if cs.len() > 0 {
        let d = cs.drop_last();
        assert forall|i: int, k: int| 0 <= i < d.len() && 0 <= k < d[i].len() implies #[trigger] d[i][k]
            != SEPARATOR by {
            assert(d[i] == cs[i]);
        }
        lemma_normal_components_safe(d);
        let last = cs.last();
        assert forall|k: int| 0 <= k < last.len() implies last[k] != SEPARATOR by {
            assert(last[k] == cs[cs.len() - 1][k]);
        }
        let kd = normal_components(d);
        let kc = normal_components(cs);
        assert forall|i: int| 0 <= i < kc.len() implies is_safe_component(#[trigger] kc[i]) by {
            if i < kd.len() {
                assert(kc[i] == kd[i]);
            } else {
                assert(kc[i] == last);
            }
        }
    }
}

/// A file written by name below a root stays below that root, whatever
/// the name holds, as long as the name has a normal component at all.
pub proof fn lemma_confined_target_is_below(root: Seq<u8>, name: Seq<u8>)
    requires
        name_components(name).len() > 0,
    ensures
        is_below(root, confined_target(root, name)),
{
    lemma_split_shape(name);
    lemma_normal_components_safe(split_path(name));
    let cs = name_components(name);
    assert(forall|i: int| 0 <= i < cs.len() ==> is_safe_component(#[trigger] cs[i]));
}

fn append_bytes(out: &mut Vec<u8>, src: &[u8])
    ensures
        final(out)@ == old(out)@ + src@,
{
    let mut i: usize = 0;
    while i < src.len()
        invariant
            0 <= i <= src@.len(),
            out@ == old(out)@ + src@.subrange(0, i as int),
        decreases src@.len() - i,
    {
        out.push(src[i]);
        i = i + 1;
        assert(out@ =~= old(out)@ + src@.subrange(0, i as int));
    }
    assert(src@.subrange(0, src@.len() as int) =~= src@);
}

fn is_normal(c: &Vec<u8>) -> (r: bool)
    ensures
        r == is_normal_component(c@),
{
    if c.len() == 0 {
        return false;
    }
    if c.len() == 1 && c[0] == DOT {
        assert(c@ =~= seq![DOT]);
        return false;
    }
    if c.len() == 2 && c[0] == DOT && c[1] == DOT {
        assert(c@ =~= seq![DOT, DOT]);
        return false;
    }
    if c.len() == 1 {
        assert(c@[0] != seq![DOT][0]);
    }
    if c.len() == 2 {
        assert(c@[0] != seq![DOT, DOT][0] || c@[1] != seq![DOT, DOT][1]);
    }
    true
}

/// Adds component `c` to the joined path `out` of the components kept so far,
/// if `c` is normal.
fn flush_component(out: &mut Vec<u8>, any: &mut bool, c: &Vec<u8>, Ghost(done): Ghost<Seq<Seq<u8>>>)
    requires
        old(out)@ == join_path(normal_components(done)),
        *old(any) == (normal_components(done).len() > 0),
    ensures
        final(out)@ == join_path(normal_components(done.push(c@))),
        *final(any) == (normal_components(done.push(c@)).len() > 0),
{
    let ghost next = done.push(c@);
    assert(next.drop_last() =~= done);
    if is_normal(c) {
        let ghost k = normal_components(done);
        assert(k.push(c@).drop_last() =~= k);
        if *any {
            out.push(SEPARATOR);
        }
        append_bytes(out, c.as_slice());
        *any = true;
        assert(out@ =~= join_path(k.push(c@)));
    }
}

/// The path below `root` at which a file of the untrusted relative name
/// `name` is written: `root`, a separator, and the normal components of
/// `name` joined by separators. `None` when `name` has no normal component,
/// since it then names no file below `root`.
pub fn confined_path(root: &[u8], name: &[u8]) -> (r: Option<Vec<u8>>)
    ensures
        r is Some <==> name_components(name@).len() > 0,
        r matches Some(p) ==> p@ == confined_target(root@, name@) && is_below(root@, p@),
{
    let mut out: Vec<u8> = Vec::new();
    let mut any: bool = false;
    let mut comp: Vec<u8> = Vec::new();
    let ghost mut done: Seq<Seq<u8>> = Seq::empty();
    let mut i: usize = 0;
    proof {
        lemma_split_shape(name@);
        assert(name@.subrange(0, 0) =~= Seq::<u8>::empty());
    }
    while i < name.len()
        invariant
            0 <= i <= name@.len(),
            split_path(name@.subrange(0, i as int)) == done.push(comp@),
            out@ == join_path(normal_components(done)),
            any == (normal_components(done).len() > 0),
        decreases name@.len() - i,
    {
        let b = name[i];
        let ghost pre = name@.subrange(0, i as int);
        let ghost cur = name@.subrange(0, i + 1);
        assert(cur.drop_last() =~= pre);
        if b == SEPARATOR {
            flush_component(&mut out, &mut any, &comp, Ghost(done));
            proof {
                done = done.push(comp@);
            }
            comp = Vec::new();
            assert(split_path(cur) =~= done.push(comp@));
        } else {
            let ghost old_comp = comp@;
            comp.push(b);
            assert(split_path(cur) =~= done.push(comp@)) by {
                let p = done.push(old_comp);
                assert(p.update(p.len() - 1, p.last().push(b)) =~= done.push(comp@));
            }
        }
        i = i + 1;
    }
    assert(name@.subrange(0, name@.len() as int) =~= name@);
    flush_component(&mut out, &mut any, &comp, Ghost(done));
    if !any {
        return None;
    }
    proof {
        lemma_confined_target_is_below(root@, name@);
    }
    let mut path: Vec<u8> = Vec::new();
    append_bytes(&mut path, root);
    path.push(SEPARATOR);
    append_bytes(&mut path, out.as_slice());
    assert(path@ =~= confined_target(root@, name@));
    Some(path)
}

} // verus!
