use vstd::prelude::*;
use std::collections::BTreeMap;
use crate::plan::{lemma_lookup_at, lookup, sorted_keys, DeletionPlan};

verus! {

pub const SLASH: u8 = 47;

pub const DOT: u8 = 46;

/// Why the audit snapshot was not produced.
#[derive(Clone, Copy, Debug, PartialEq, Eq, Structural)]
pub enum AuditError {
    /// The target path does not lie strictly inside the sandbox directory.
    OutsideSandbox,
    /// The encoder refused the plan.
    Serialization,
}

pub open spec fn views(v: Seq<Vec<u8>>) -> Seq<Seq<u8>> {
    v.map_values(|x: Vec<u8>| x@)
}

/// The components read so far from a path, and the one being read.
pub open spec fn split_state(s: Seq<u8>) -> (Seq<Seq<u8>>, Seq<u8>)
    decreases s.len(),
{
    if s.len() == 0 {
        (seq![], seq![])
    } else {
        let (parts, cur) = split_state(s.drop_last());
        if s.last() == SLASH {
            (if cur.len() > 0 { parts.push(cur) } else { parts }, seq![])
        } else {
            (parts, cur.push(s.last()))
        }
    }
}

/// The non-empty `/`-separated components of a path.
pub open spec fn components(s: Seq<u8>) -> Seq<Seq<u8>> {
    let (parts, cur) = split_state(s);
    if cur.len() > 0 {
        parts.push(cur)
    } else {
        parts
    }
}

/// One component applied to a resolved path: `.` stays, `..` climbs
/// (never above the top), any other name descends.
pub open spec fn step(base: Seq<Seq<u8>>, c: Seq<u8>) -> Seq<Seq<u8>> {
    if c == seq![DOT] {
        base
    } else if c == seq![DOT, DOT] {
        if base.len() > 0 {
            base.drop_last()
        } else {
            base
        }
    } else {
        base.push(c)
    }
}

pub open spec fn resolve_spec(base: Seq<Seq<u8>>, rel: Seq<Seq<u8>>) -> Seq<Seq<u8>>
    decreases rel.len(),
{
    if rel.len() == 0 {
        base
    } else {
        step(resolve_spec(base, rel.drop_last()), rel.last())
    }
}

/// The sandbox directory as resolved components.
pub open spec fn root_of(root: Seq<u8>) -> Seq<Seq<u8>> {
    resolve_spec(seq![], components(root))
}

/// Where `filename` leads from the sandbox directory: an absolute name
/// starts over from the top.
pub open spec fn target_of(root: Seq<u8>, filename: Seq<u8>) -> Seq<Seq<u8>> {
    let base = if filename.len() > 0 && filename[0] == SLASH {
        seq![]
    } else {
        root_of(root)
    };
    resolve_spec(base, components(filename))
}

/// `target` lies strictly below `root`.
pub open spec fn below(root: Seq<Seq<u8>>, target: Seq<Seq<u8>>) -> bool {
    root.len() < target.len() && target.take(root.len() as int) == root
}

fn copy_bytes(b: &Vec<u8>) -> (r: Vec<u8>)
    ensures
        r@ == b@,
{
    let mut r: Vec<u8> = Vec::new();
    let mut i: usize = 0;
    while i < b.len()
        invariant
            i <= b@.len(),
            r@ == b@.take(i as int),
        decreases b@.len() - i,
    {
        r.push(b[i]);
        assert(b@.take(i + 1) == b@.take(i as int).push(b@[i as int]));
        i = i + 1;
    }
    assert(b@.take(b@.len() as int) == b@);
    r
}

fn bytes_equal(a: &Vec<u8>, b: &Vec<u8>) -> (r: bool)
    ensures
        r == (a@ == b@),
{
    if a.len() != b.len() {
        return false;
    }
    let mut i: usize = 0;
    while i < a.len()
        invariant
            i <= a@.len(),
            a@.len() == b@.len(),
            a@.take(i as int) == b@.take(i as int),
        decreases a@.len() - i,
    {
        if a[i] != b[i] {
            assert(a@[i as int] != b@[i as int]);
            return false;
        }
        assert(a@.take(i + 1) == a@.take(i as int).push(a@[i as int]));
        assert(b@.take(i + 1) == b@.take(i as int).push(b@[i as int]));
        i = i + 1;
    }
    assert(a@.take(a@.len() as int) == a@);
    assert(b@.take(b@.len() as int) == b@);
    true
}

/// Splits a path into its non-empty `/`-separated components.
pub fn split_components(path: &Vec<u8>) -> (r: Vec<Vec<u8>>)
    ensures
        views(r@) == components(path@),
{
    let mut parts: Vec<Vec<u8>> = Vec::new();
    let mut cur: Vec<u8> = Vec::new();
    let mut i: usize = 0;
    while i < path.len()
        invariant
            i <= path@.len(),
            views(parts@) == split_state(path@.take(i as int)).0,
            cur@ == split_state(path@.take(i as int)).1,
        decreases path@.len() - i,
    {
        let b = path[i];
        assert(path@.take(i + 1).drop_last() == path@.take(i as int));
        if b == SLASH {
            if cur.len() > 0 {
                let ghost pv = views(parts@);
                parts.push(cur);
                assert(views(parts@) =~= pv.push(split_state(path@.take(i as int)).1));
            }
            cur = Vec::new();
        } else {
            cur.push(b);
        }
        i = i + 1;
    }
    assert(path@.take(path@.len() as int) == path@);
    if cur.len() > 0 {
        let ghost pv = views(parts@);
        parts.push(cur);
        assert(views(parts@) =~= pv.push(split_state(path@).1));
    }
    parts
}

/// Applies the components `rel` to the resolved path `base`.
pub fn resolve_components(base: Vec<Vec<u8>>, rel: &Vec<Vec<u8>>) -> (r: Vec<Vec<u8>>)
    ensures
        views(r@) == resolve_spec(views(base@), views(rel@)),
{
    let ghost b0 = views(base@);
    let mut stack = base;
    let mut i: usize = 0;
    while i < rel.len()
        invariant
            i <= rel@.len(),
            views(stack@) == resolve_spec(b0, views(rel@).take(i as int)),
        decreases rel@.len() - i,
    {
        let c = &rel[i];
        let ghost before = views(stack@);
        assert(views(rel@).take(i + 1).drop_last() == views(rel@).take(i as int));
        assert(views(rel@).take(i + 1).last() == c@);
        let dot: Vec<u8> = vec![DOT];
        let dotdot: Vec<u8> = vec![DOT, DOT];
        assert(dot@ == seq![DOT]);
        assert(dotdot@ == seq![DOT, DOT]);
        if bytes_equal(c, &dot) {
        } else if bytes_equal(c, &dotdot) {
            if stack.len() > 0 {
                stack.pop();
                assert(views(stack@) =~= before.drop_last());
            }
        } else {
            stack.push(copy_bytes(c));
            assert(views(stack@) =~= before.push(c@));
        }
        i = i + 1;
    }
    assert(views(rel@).take(rel@.len() as int) == views(rel@));
    stack
}

fn starts_below(root: &Vec<Vec<u8>>, target: &Vec<Vec<u8>>) -> (r: bool)
    ensures
        r == below(views(root@), views(target@)),
{
    if root.len() >= target.len() {
        return false;
    }
    let mut i: usize = 0;
    while i < root.len()
        invariant
            i <= root@.len(),
            root@.len() < target@.len(),
            views(target@).take(i as int) == views(root@).take(i as int),
        decreases root@.len() - i,
    {
        if !bytes_equal(&root[i], &target[i]) {
            assert(views(target@).take(root@.len() as int)[i as int] != views(root@)[i as int]);
            return false;
        }
        assert(views(target@).take(i + 1) =~= views(target@).take(i as int).push(target@[i as int]@));
        assert(views(root@).take(i + 1) =~= views(root@).take(i as int).push(root@[i as int]@));
        i = i + 1;
    }
    assert(views(root@).take(root@.len() as int) == views(root@));
    true
}

/// The resolved path of `filename` in the sandbox directory `root`, or an
/// error where it would leave the sandbox.
pub fn sandbox_target(root: &Vec<u8>, filename: &Vec<u8>) -> (r: Result<Vec<Vec<u8>>, AuditError>)
    ensures
        match r {
            Ok(t) => views(t@) == target_of(root@, filename@) && below(
                root_of(root@),
                target_of(root@, filename@),
            ),
            Err(e) => e == AuditError::OutsideSandbox && !below(
                root_of(root@),
                target_of(root@, filename@),
            ),
        },
{
    let root_parts = split_components(root);
    let top: Vec<Vec<u8>> = Vec::new();
    assert(views(top@) =~= seq![]);
    let resolved_root = resolve_components(top, &root_parts);
    let name_parts = split_components(filename);
    let base = if filename.len() > 0 && filename[0] == SLASH {
        let b: Vec<Vec<u8>> = Vec::new();
        assert(views(b@) =~= seq![]);
        b
    } else {
        let top: Vec<Vec<u8>> = Vec::new();
        assert(views(top@) =~= seq![]);
        resolve_components(top, &root_parts)
    };
    let target = resolve_components(base, &name_parts);
    if starts_below(&resolved_root, &target) {
        Ok(target)
    } else {
        Err(AuditError::OutsideSandbox)
    }
}

#[verifier::external_type_specification]
#[verifier::external_body]
pub struct ExJsonError(serde_json::Error);

/// The bytes that serde_json's pretty printer writes for a map from
/// conversation id to message ids.
pub uninterp spec fn pretty_json_of(m: Map<i64, Seq<i32>>) -> Seq<u8>;

pub open spec fn btree_view(m: BTreeMap<i64, Vec<i32>>) -> Map<i64, Seq<i32>> {
    m@.map_values(|v: Vec<i32>| v@)
}

/// What the plan `e` records, as a map from conversation id to message ids.
pub open spec fn plan_map(e: Seq<(i64, Seq<i32>)>) -> Map<i64, Seq<i32>> {
    Map::new(|k: i64| lookup(e, k) is Some, |k: i64| lookup(e, k)->Some_0)
}

/// Relies on serde_json::to_vec_pretty: it writes into a `Vec`, an `i64` key
/// is written as a quoted string and a `BTreeMap` is walked in key order, so
/// it succeeds, and the bytes depend on the map's contents alone.
#[verifier::external_body]
fn to_pretty_json(m: &BTreeMap<i64, Vec<i32>>) -> (r: Result<Vec<u8>, serde_json::Error>)
    ensures
        r is Ok,
        match r {
            Ok(b) => b@ == pretty_json_of(btree_view(*m)),
            Err(_) => true,
        },
{
    serde_json::to_vec_pretty(m)
}

fn copy_ids(v: &Vec<i32>) -> (r: Vec<i32>)
    ensures
        r@ == v@,
{
    let mut r: Vec<i32> = Vec::new();
    let mut i: usize = 0;
    while i < v.len()
        invariant
            i <= v@.len(),
            r@ == v@.take(i as int),
        decreases v@.len() - i,
    {
        r.push(v[i]);
        assert(v@.take(i + 1) == v@.take(i as int).push(v@[i as int]));
        i = i + 1;
    }
    assert(v@.take(v@.len() as int) == v@);
    r
}

/// The audit snapshot of a plan: a pretty-printed JSON object from
/// conversation id to the array of its message ids, in key order.
pub fn audit_json(plan: &DeletionPlan) -> (r: Result<Vec<u8>, AuditError>)
    requires
        sorted_keys(plan@),
    ensures
        r is Ok,
        match r {
            Ok(b) => b@ == pretty_json_of(plan_map(plan@)),
            Err(e) => e == AuditError::Serialization,
        },
{
    broadcast use vstd::laws_cmp::group_laws_cmp;

    let mut m: BTreeMap<i64, Vec<i32>> = BTreeMap::new();
    let mut i: usize = 0;
    assert(btree_view(m) =~= plan_map(plan@.take(0)));
    while i < plan.len()
        invariant
            i <= plan@.len(),
            sorted_keys(plan@),
            btree_view(m) == plan_map(plan@.take(i as int)),
        decreases plan@.len() - i,
    {
        let (c, ids) = plan.entry(i);
        let ghost prev = plan@.take(i as int);
        let ghost next = plan@.take(i + 1);
        let copied = copy_ids(ids);
        let ghost before = m;
        proof {
            assert(vstd::laws_cmp::obeys_cmp::<i64>());
        }
        m.insert(c, copied);
        proof {
            assert(m@ == before@.insert(c, copied));
            assert(btree_view(m) =~= btree_view(before).insert(c, plan@[i as int].1));
            assert(next == prev.push(plan@[i as int]));
            assert(sorted_keys(next));
            assert(sorted_keys(prev));
            assert forall|k: i64| #[trigger] lookup(next, k) == if k == c {
                Some(plan@[i as int].1)
            } else {
                lookup(prev, k)
            } by {
                if k == c {
                    lemma_lookup_at(next, i as int);
                } else if exists|j: int| 0 <= j < prev.len() && prev[j].0 == k {
                    let j = choose|j: int| 0 <= j < prev.len() && prev[j].0 == k;
                    lemma_lookup_at(prev, j);
                    lemma_lookup_at(next, j);
                } else {
                    assert(!exists|j: int| 0 <= j < next.len() && next[j].0 == k);
                }
            }
            assert(btree_view(m) =~= plan_map(next));
        }
        i = i + 1;
    }
    assert(plan@.take(plan@.len() as int) == plan@);
    match to_pretty_json(&m) {
        Ok(b) => Ok(b),
        Err(_) => Err(AuditError::Serialization),
    }
}

} // verus!
