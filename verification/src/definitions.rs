//! Workflow and step definitions, and the step-id derived from them.
//!
//! A step-id is a stable 64-bit hash of the step's type and parameters.  It
//! does not depend on the order in which parameters were inserted, so two
//! textually reordered but otherwise equal step definitions share an id.

use vstd::prelude::*;
use crate::collections::StrMap;
use crate::collections::distinct_keys;
use crate::strutil::chars_of;
use crate::strutil::opt_view;

verus! {

/// The textual type of a workflow step (`rtmp_receive`, `hls`, ...).
#[derive(Debug)]
pub struct WorkflowStepType(pub String);

/// One step of a workflow: a step type plus named parameters.  A parameter
/// mapped to `None` is a flag.
#[derive(Debug)]
pub struct WorkflowStepDefinition {
    pub step_type: WorkflowStepType,
    pub parameters: StrMap<Option<String>>,
}

/// A named, ordered pipeline of step definitions.
#[derive(Debug)]
pub struct WorkflowDefinition {
    pub name: String,
    pub steps: Vec<WorkflowStepDefinition>,
}

pub const FNV_OFFSET: u64 = 0xcbf29ce484222325;

pub const FNV_PRIME: u64 = 0x100000001b3;

/// FNV-1a over a character sequence, starting from `h`.
pub open spec fn spec_fnv(s: Seq<char>, h: u64) -> u64
    decreases s.len(),
{
    if s.len() == 0 {
        h
    } else {
        spec_fnv(s.drop_first(), (h ^ (s[0] as u64)).wrapping_mul(FNV_PRIME))
    }
}

/// The hash contribution of one parameter entry.
pub open spec fn spec_param_hash(k: Seq<char>, v: Option<Seq<char>>) -> u64 {
    let hk = spec_fnv(k, FNV_OFFSET);
    match v {
        None => hk.wrapping_mul(3),
        Some(s) => spec_fnv(s, hk).wrapping_mul(5),
    }
}

/// The wrapping sum of all parameter contributions, over the entry sequence.
pub open spec fn spec_param_sum(s: Seq<(Seq<char>, Option<String>)>) -> u64
    decreases s.len(),
{
    if s.len() == 0 {
        0
    } else {
        spec_param_sum(s.drop_last()).wrapping_add(
            spec_param_hash(s.last().0, opt_view(s.last().1)),
        )
    }
}

/// The step-id of a definition: the type hash plus the parameter sum.
/// Addition commutes, so the id ignores parameter insertion order.
#[verifier::opaque]
pub open spec fn spec_step_id(d: &WorkflowStepDefinition) -> u64 {
    spec_fnv(d.step_type.0@, FNV_OFFSET).wrapping_add(spec_param_sum(d.parameters.kvs()))
}

fn fnv_chars(v: &Vec<char>, h0: u64) -> (r: u64)
    ensures
        r == spec_fnv(v@, h0),
{
    let n = v.len();
    let mut h = h0;
    let mut i: usize = 0;
    proof {
        assert(v@.skip(0) =~= v@);
    }
    while i < n
        invariant
            i <= n,
            n == v@.len(),
            spec_fnv(v@.skip(i as int), h) == spec_fnv(v@, h0),
        decreases n - i,
    {
        let c = v[i];
        proof {
            let t = v@.skip(i as int);
            assert(t[0] == v@[i as int]);
            assert(t.drop_first() =~= v@.skip(i + 1));
        }
        h = (h ^ (c as u64)).wrapping_mul(FNV_PRIME);
        i += 1;
    }
    proof {
        assert(v@.skip(n as int) =~= Seq::<char>::empty());
    }
    h
}

fn fnv_str(s: &String, h0: u64) -> (r: u64)
    ensures
        r == spec_fnv(s@, h0),
{
    let v = chars_of(s.as_str());
    fnv_chars(&v, h0)
}

impl WorkflowStepDefinition {
    pub open spec fn wf(&self) -> bool {
        self.parameters.wf()
    }

    /// The step-id: a stable hash of type and parameters, independent of
    /// parameter insertion order.
    pub fn get_id(&self) -> (r: u64)
        requires
            self.wf(),
        ensures
            r == spec_step_id(self),
    {
        let th = fnv_str(&self.step_type.0, FNV_OFFSET);
        let n = self.parameters.len();
        let mut sum: u64 = 0;
        let mut i: usize = 0;
        while i < n
            invariant
                i <= n,
                self.wf(),
                n == self.parameters.kvs().len(),
                sum == spec_param_sum(self.parameters.kvs().take(i as int)),
            decreases n - i,
        {
            let key = self.parameters.key_at(i);
            let hk = fnv_str(key, FNV_OFFSET);
            let contribution: u64 = match self.parameters.value_at(i) {
                None => hk.wrapping_mul(3),
                Some(v) => fnv_str(v, hk).wrapping_mul(5),
            };
            proof {
                let t = self.parameters.kvs().take(i + 1);
                assert(t.drop_last() =~= self.parameters.kvs().take(i as int));
                assert(t.last() == self.parameters.kvs()[i as int]);
            }
            sum = sum.wrapping_add(contribution);
            i += 1;
        }
        proof {
            assert(self.parameters.kvs().take(n as int) =~= self.parameters.kvs());
            reveal(crate::definitions::spec_step_id);
        }
        th.wrapping_add(sum)
    }
}

impl WorkflowDefinition {
    pub open spec fn wf(&self) -> bool {
        forall|i: int| 0 <= i < self.steps@.len() ==> (#[trigger] self.steps@[i]).wf()
    }
}


/// Copy of an optional-string map, preserving key and value views and
/// entry order.
pub fn clone_params(m: &StrMap<Option<String>>) -> (r: StrMap<Option<String>>)
    ensures
        r.wf(),
        crate::config::omap_view(r@) == crate::config::omap_view(m@),
{
    let n = m.len_raw();
    let mut r: StrMap<Option<String>> = StrMap::new();
    let mut i: usize = 0;
    proof {
        assert(m.kvs().take(0) =~= Seq::<(Seq<char>, Option<String>)>::empty());
        assert(crate::config::omap_view(r@) =~= crate::config::omap_view(
            crate::collections::assoc_map(m.kvs().take(0)),
        ));
    }
    while i < n
        invariant
            i <= n,
            r.wf(),
            n == m.kvs().len(),
            crate::config::omap_view(r@) =~= crate::config::omap_view(
                crate::collections::assoc_map(m.kvs().take(i as int)),
            ),
        decreases n - i,
    {
        let k = m.key_at(i).clone();
        let v: Option<String> = match m.value_at(i) {
            Some(s) => Some(s.clone()),
            None => None,
        };
        let ghost old_r = r@;
        proof {
            assert(opt_view(v) == opt_view(m.kvs()[i as int].1));
        }
        r.insert(k, v);
        proof {
            let pre = m.kvs().take(i as int);
            let post = m.kvs().take(i + 1);
            assert(post.drop_last() =~= pre);
            assert(post.last() == m.kvs()[i as int]);
            assert(crate::config::omap_view(r@) =~= crate::config::omap_view(old_r).insert(
                m.kvs()[i as int].0,
                opt_view(m.kvs()[i as int].1),
            ));
            assert(crate::config::omap_view(crate::collections::assoc_map(post))
                =~= crate::config::omap_view(crate::collections::assoc_map(pre)).insert(
                m.kvs()[i as int].0,
                opt_view(m.kvs()[i as int].1),
            ));
        }
        i += 1;
    }
    proof {
        assert(m.kvs().take(n as int) =~= m.kvs());
    }
    r
}

impl Clone for WorkflowStepDefinition {
    fn clone(&self) -> (r: Self)
        ensures
            r.wf(),
            crate::config::step_model(r) == crate::config::step_model(*self),
    {
        let r = WorkflowStepDefinition {
            step_type: WorkflowStepType(self.step_type.0.clone()),
            parameters: clone_params(&self.parameters),
        };
        r
    }
}

impl Clone for WorkflowDefinition {
    fn clone(&self) -> (r: Self)
        ensures
            r.wf(),
            crate::config::workflow_model(r) == crate::config::workflow_model(*self),
    {
        let n = self.steps.len();
        let mut steps: Vec<WorkflowStepDefinition> = Vec::new();
        let mut i: usize = 0;
        while i < n
            invariant
                i <= n,
                n == self.steps@.len(),
                steps@.len() == i,
                forall|j: int| 0 <= j < i ==> (#[trigger] steps@[j]).wf(),
                forall|j: int|
                    0 <= j < i ==> crate::config::step_model(#[trigger] steps@[j])
                        == crate::config::step_model(self.steps@[j]),
            decreases n - i,
        {
            let s = self.steps[i].clone();
            steps.push(s);
            i += 1;
        }
        let r = WorkflowDefinition { name: self.name.clone(), steps };
        proof {
            assert(crate::config::workflow_model(r).steps =~= crate::config::workflow_model(
                *self,
            ).steps);
            assert(crate::config::workflow_model(r) == crate::config::workflow_model(*self));
        }
        r
    }
}


/// Absorbing two contributions commutes.
proof fn lemma_wrap_add_comm(a: u64, x: u64, y: u64)
    ensures
        a.wrapping_add(x).wrapping_add(y) == a.wrapping_add(y).wrapping_add(x),
{
}

/// The parameter sum absorbs any one entry first.
proof fn lemma_param_sum_pull(s: Seq<(Seq<char>, Option<String>)>, j: int)
    requires
        0 <= j < s.len(),
    ensures
        spec_param_sum(s) == spec_param_sum(s.remove(j)).wrapping_add(
            spec_param_hash(s[j].0, opt_view(s[j].1)),
        ),
    decreases s.len(),
{
    if j == s.len() - 1 {
        assert(s.remove(j) =~= s.drop_last());
    } else {
        lemma_param_sum_pull(s.drop_last(), j);
        assert(s.remove(j).drop_last() =~= s.drop_last().remove(j));
        assert(s.remove(j).last() == s.last());
        assert(s.drop_last()[j] == s[j]);
        lemma_wrap_add_comm(
            spec_param_sum(s.drop_last().remove(j)),
            spec_param_hash(s[j].0, opt_view(s[j].1)),
            spec_param_hash(s.last().0, opt_view(s.last().1)),
        );
    }
}

/// Entry sequences carrying the same keys with view-equal values sum to
/// the same value, in whatever order the entries stand.
proof fn lemma_param_sum_of_views(
    s1: Seq<(Seq<char>, Option<String>)>,
    s2: Seq<(Seq<char>, Option<String>)>,
)
    requires
        distinct_keys(s1),
        distinct_keys(s2),
        s1.len() == s2.len(),
        forall|i: int|
            0 <= i < s1.len() ==> exists|j: int|
                0 <= j < s2.len() && (#[trigger] s2[j]).0 == (#[trigger] s1[i]).0 && opt_view(
                    s2[j].1,
                ) == opt_view(s1[i].1),
    ensures
        spec_param_sum(s1) == spec_param_sum(s2),
    decreases s1.len(),
{
    if s1.len() == 0 {
    } else {
        let i = s1.len() - 1;
        let e = s1[i];
        let j = choose|j: int|
            0 <= j < s2.len() && (#[trigger] s2[j]).0 == e.0 && opt_view(s2[j].1) == opt_view(
                e.1,
            );
        lemma_param_sum_pull(s2, j);
        assert(spec_param_hash(s2[j].0, opt_view(s2[j].1)) == spec_param_hash(
            e.0,
            opt_view(e.1),
        ));
        let r1 = s1.drop_last();
        let r2 = s2.remove(j);
        assert(distinct_keys(r1));
        assert(distinct_keys(r2)) by {
            assert forall|p: int, q: int| 0 <= p < q < r2.len() implies r2[p].0 != r2[q].0 by {
                let p0 = if p < j {
                    p
                } else {
                    p + 1
                };
                let q0 = if q < j {
                    q
                } else {
                    q + 1
                };
                assert(r2[p] == s2[p0]);
                assert(r2[q] == s2[q0]);
            }
        }
        assert forall|p: int| 0 <= p < r1.len() implies exists|q: int|
            0 <= q < r2.len() && (#[trigger] r2[q]).0 == (#[trigger] r1[p]).0 && opt_view(
                r2[q].1,
            ) == opt_view(r1[p].1) by {
            assert(r1[p] == s1[p]);
            let q0 = choose|q0: int|
                0 <= q0 < s2.len() && (#[trigger] s2[q0]).0 == s1[p].0 && opt_view(s2[q0].1)
                    == opt_view(s1[p].1);
            assert(s2[q0].0 != s2[j].0) by {
                assert(s1[p].0 != s1[i].0);
            }
            assert(q0 != j);
            let q = if q0 < j {
                q0
            } else {
                q0 - 1
            };
            assert(r2[q] == s2[q0]);
        }
        lemma_param_sum_of_views(r1, r2);
        assert(spec_param_sum(s1) == spec_param_sum(r1).wrapping_add(
            spec_param_hash(e.0, opt_view(e.1)),
        ));
    }
}

/// Step-ids are pure functions of a definition's content: two definitions
/// with the same type text and the same parameter map carry the same id,
/// whatever order their parameters were inserted in.
pub proof fn lemma_step_id_ignores_parameter_order(
    a: &WorkflowStepDefinition,
    b: &WorkflowStepDefinition,
)
    requires
        a.wf(),
        b.wf(),
        a.step_type.0@ == b.step_type.0@,
        crate::config::omap_view(a.parameters@) == crate::config::omap_view(b.parameters@),
    ensures
        spec_step_id(a) == spec_step_id(b),
{
    reveal(crate::definitions::spec_step_id);
    a.parameters.lemma_props();
    b.parameters.lemma_props();
    let s1 = a.parameters.kvs();
    let s2 = b.parameters.kvs();
    assert(a.parameters@.dom() =~= crate::config::omap_view(a.parameters@).dom());
    assert(b.parameters@.dom() =~= crate::config::omap_view(b.parameters@).dom());
    assert(s1.len() == s2.len()) by {
        assert(a.parameters@.dom().len() == s1.len());
        assert(b.parameters@.dom().len() == s2.len());
    }
    assert forall|i: int| 0 <= i < s1.len() implies exists|j: int|
        0 <= j < s2.len() && (#[trigger] s2[j]).0 == (#[trigger] s1[i]).0 && opt_view(s2[j].1)
            == opt_view(s1[i].1) by {
        let k = s1[i].0;
        assert(a.parameters@.contains_key(k) && a.parameters@[k] == s1[i].1);
        assert(crate::config::omap_view(a.parameters@)[k] == opt_view(s1[i].1));
        assert(b.parameters@.contains_key(k));
        let j = choose|j: int| 0 <= j < s2.len() && (#[trigger] s2[j]).0 == k;
        assert(b.parameters@[k] == s2[j].1);
        assert(crate::config::omap_view(b.parameters@)[k] == opt_view(s2[j].1));
    }
    lemma_param_sum_of_views(s1, s2);
}

} // verus!
