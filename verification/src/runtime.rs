//! The chained, append-only variable environment. A frame owns a
//! mapping from lookup key to value and an optional parent frame;
//! lookup walks outward until a match or exhaustion, and a frame never
//! mutates its parent. Its model is the chain of binding sequences,
//! innermost frame first.

use vstd::prelude::*;

use crate::expr::{eq_index, SpecIndex, VariableIndex};
use crate::value::{clone_value, wf_value, SpecValue, Value};

verus! {

/// The bindings of one frame, at the model level.
pub type SpecBindings = Seq<(SpecIndex, SpecValue)>;

/// One frame of the environment: its own bindings and the optional
/// parent link.
#[derive(Debug)]
pub struct Frame {
    pub variables: Vec<(VariableIndex, Value)>,
    pub parent: Option<Box<Frame>>,
}

/// The whole interpreter state: the root frame of the environment.
#[derive(Debug)]
pub struct Runtime {
    pub frame: Frame,
}

pub open spec fn spec_bindings(vars: Seq<(VariableIndex, Value)>) -> SpecBindings {
    Seq::new(vars.len(), |i: int| (vars[i].0@, vars[i].1@))
}

pub open spec fn frame_chain(f: Frame) -> Seq<SpecBindings>
    decreases f,
{
    match f.parent {
        None => seq![spec_bindings(f.variables@)],
        Some(p) => seq![spec_bindings(f.variables@)] + frame_chain(*p),
    }
}

impl View for Frame {
    type V = Seq<SpecBindings>;

    open spec fn view(&self) -> Seq<SpecBindings> {
        frame_chain(*self)
    }
}

/// First binding of `idx` within one frame's own bindings.
pub open spec fn find_in(bs: SpecBindings, idx: SpecIndex) -> Option<SpecValue>
    decreases bs,
{
    if bs.len() == 0 {
        None
    } else if bs[0].0 == idx {
        Some(bs[0].1)
    } else {
        find_in(bs.drop_first(), idx)
    }
}

/// Chained lookup: the innermost frame that binds `idx` wins.
pub open spec fn lookup(chain: Seq<SpecBindings>, idx: SpecIndex) -> Option<SpecValue>
    decreases chain,
{
    if chain.len() == 0 {
        None
    } else {
        match find_in(chain[0], idx) {
            Some(v) => Some(v),
            None => lookup(chain.drop_first(), idx),
        }
    }
}

/// Keys are unique within one frame's own bindings — the invariant the
/// original backing map gave for free, maintained here solely by the
/// collision-checked `insert_variable`. With it, the first match that
/// `find_in` returns is the only match.
pub open spec fn unique_keys(bs: SpecBindings) -> bool {
    forall|i: int, j: int| 0 <= i < j < bs.len() ==> bs[i].0 != bs[j].0
}

/// A binding absent by `find_in` is absent everywhere in the frame.
pub proof fn lemma_find_in_none_absent(bs: SpecBindings, idx: SpecIndex)
    requires
        (find_in(bs, idx) is None),
    ensures
        forall|j: int| 0 <= j < bs.len() ==> (#[trigger] bs[j]).0 != idx,
    decreases bs,
{
    if bs.len() != 0 {
        lemma_find_in_none_absent(bs.drop_first(), idx);
        assert forall|j: int| 0 <= j < bs.len() implies (#[trigger] bs[j]).0 != idx by {
            if j > 0 {
                assert(bs[j] == bs.drop_first()[j - 1]);
            }
        }
    }
}

pub open spec fn wf_bindings(bs: SpecBindings) -> bool {
    forall|i: int| 0 <= i < bs.len() ==> wf_value(#[trigger] bs[i].1)
}

pub open spec fn wf_chain(chain: Seq<SpecBindings>) -> bool {
    forall|i: int| 0 <= i < chain.len() ==> wf_bindings(#[trigger] chain[i])
}

pub proof fn lemma_find_in_wf(bs: SpecBindings, idx: SpecIndex)
    requires
        wf_bindings(bs),
        find_in(bs, idx) is Some,
    ensures
        wf_value(find_in(bs, idx)->Some_0),
    decreases bs,
{
    if bs.len() != 0 && bs[0].0 != idx {
        assert(wf_bindings(bs.drop_first()));
        lemma_find_in_wf(bs.drop_first(), idx);
    }
}

/// A value found anywhere in a well-formed chain is well formed.
pub proof fn lemma_lookup_wf(chain: Seq<SpecBindings>, idx: SpecIndex)
    requires
        wf_chain(chain),
        lookup(chain, idx) is Some,
    ensures
        wf_value(lookup(chain, idx)->Some_0),
    decreases chain,
{
    if chain.len() != 0 {
        if find_in(chain[0], idx) is Some {
            lemma_find_in_wf(chain[0], idx);
        } else {
            assert(wf_chain(chain.drop_first()));
            lemma_lookup_wf(chain.drop_first(), idx);
        }
    }
}

/// Scan of one frame's own bindings, first match wins.
fn find_local(vars: &Vec<(VariableIndex, Value)>, idx: &VariableIndex) -> (r: Option<Value>)
    ensures
        (match find_in(spec_bindings(vars@), idx@) {
            Some(v) => r matches Some(rv) && rv@ == v,
            None => r is None,
        }),
{
    let ghost bs = spec_bindings(vars@);
    proof {
        assert(bs.skip(0) =~= bs);
    }
    let n = vars.len();
    let mut i: usize = 0;
    while i < n
        invariant
            n == vars@.len(),
            i <= n,
            bs == spec_bindings(vars@),
            bs.len() == n,
            find_in(bs, idx@) == find_in(bs.skip(i as int), idx@),
        decreases n - i,
    {
        proof {
            assert(bs.skip(i as int)[0] == bs[i as int]);
            assert(bs.skip(i as int).drop_first() =~= bs.skip(i as int + 1));
        }
        let hit = eq_index(&vars[i].0, idx);
        if hit {
            return Some(clone_value(&vars[i].1));
        }
        i = i + 1;
    }
    proof {
        assert(bs.skip(n as int).len() == 0);
    }
    None
}

impl Frame {
    /// An empty frame with no parent.
    pub fn new() -> (f: Frame)
        ensures
            f@ == seq![Seq::<(SpecIndex, SpecValue)>::empty()],
            unique_keys(f@[0]),
    {
        let f = Frame { variables: Vec::new(), parent: None };
        proof {
            assert(spec_bindings(f.variables@) =~= Seq::<(SpecIndex, SpecValue)>::empty());
            assert(f@ =~= seq![Seq::<(SpecIndex, SpecValue)>::empty()]);
        }
        f
    }

    /// An empty frame chained to `parent`; the parent's bindings are
    /// reachable by lookup but never mutated through the child.
    pub fn from_parent(parent: Frame) -> (f: Frame)
        ensures
            f@ == seq![Seq::<(SpecIndex, SpecValue)>::empty()] + parent@,
            unique_keys(f@[0]),
    {
        let ghost pchain = parent@;
        let f = Frame { variables: Vec::new(), parent: Some(Box::new(parent)) };
        proof {
            assert(spec_bindings(f.variables@) =~= Seq::<(SpecIndex, SpecValue)>::empty());
            assert(f@ =~= seq![Seq::<(SpecIndex, SpecValue)>::empty()] + pchain);
        }
        f
    }

    /// Inserts only if `index` is absent from this frame's own bindings;
    /// returns false, with no mutation, on a collision. This is the sole
    /// mechanism enforcing that a name binds at most once per frame.
    pub fn insert_variable(&mut self, index: VariableIndex, value: Value) -> (b: bool)
        ensures
            b == (find_in(old(self)@[0], index@) is None),
            b ==> final(self)@ == old(self)@.update(
                0,
                old(self)@[0].push((index@, value@)),
            ),
            !b ==> final(self)@ == old(self)@,
            unique_keys(old(self)@[0]) ==> unique_keys(final(self)@[0]),
    {
        let ghost oldchain = self@;
        let ghost bs = spec_bindings(self.variables@);
        proof {
            assert(oldchain[0] == bs);
        }
        let absent = find_local(&self.variables, &index).is_none();
        if absent {
            proof {
                lemma_find_in_none_absent(bs, index@);
            }
            let ghost gi = index@;
            let ghost gv = value@;
            self.variables.push((index, value));
            proof {
                assert(spec_bindings(self.variables@) =~= bs.push((gi, gv)));
                assert(self@ =~= oldchain.update(0, bs.push((gi, gv))));
            }
            true
        } else {
            false
        }
    }

    /// Chained lookup: this frame's own bindings first, else the parent,
    /// else absent. The returned value is a copy with the same model.
    pub fn find(&self, idx: &VariableIndex) -> (r: Option<Value>)
        ensures
            (match lookup(self@, idx@) {
                Some(v) => r matches Some(rv) && rv@ == v,
                None => r is None,
            }),
        decreases *self,
    {
        proof {
            match &self.parent {
                None => {
                    assert(self@ =~= seq![spec_bindings(self.variables@)]);
                    assert(self@.drop_first() =~= Seq::<SpecBindings>::empty());
                    assert(lookup(Seq::<SpecBindings>::empty(), idx@) is None);
                },
                Some(p) => {
                    assert(self@ =~= seq![spec_bindings(self.variables@)] + frame_chain(**p));
                    assert(self@[0] == spec_bindings(self.variables@));
                    assert(self@.len() >= 1);
                    assert(self@.drop_first() =~= frame_chain(**p));
                },
            }
        }
        let local = find_local(&self.variables, idx);
        match local {
            Some(v) => Some(v),
            None => match &self.parent {
                Some(p) => p.find(idx),
                None => None,
            },
        }
    }
}

impl Runtime {
    /// Evaluates a program's top-level expression against this
    /// interpreter's root frame, with `fuel` bounding invocation depth;
    /// `None` reports that the bound was exceeded.
    pub fn run(&mut self, program: &crate::expr::Expr, fuel: u64) -> (r: Option<
        Result<Value, crate::error::RuntimeError>,
    >)
        requires
            crate::expr::wf_expr(program@),
            wf_chain(old(self).frame@),
        ensures
            crate::semantics::eval_post(
                crate::semantics::spec_eval(fuel as nat, program@, old(self).frame@),
                r,
                final(self).frame@,
            ),
            wf_chain(final(self).frame@),
    {
        program.evaluate(&mut self.frame, fuel)
    }

    /// A fresh interpreter with one empty root frame.
    pub fn new() -> (rt: Runtime)
        ensures
            rt.frame@ == seq![Seq::<(SpecIndex, SpecValue)>::empty()],
    {
        Runtime { frame: Frame::new() }
    }
}

} // verus!
