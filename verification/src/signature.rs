//! The parameters of a handler, and the pool of those that a route can bind:
//! the ones that are bound to a simple name.

use vstd::prelude::*;
use crate::text::{view_of, views};
use crate::type_expr::{TypeExpr, TypeModel};

verus! {

/// One parameter of a handler. A receiver is none: the caller leaves it out.
#[derive(Debug, PartialEq, Eq)]
pub struct HandlerParam {
    /// The name of the parameter, where it is bound to a simple name, and not
    /// to a pattern that takes its value apart.
    pub name: Option<String>,
    /// The type of the parameter.
    pub ty: TypeExpr,
}

/// What a `HandlerParam` stands for.
pub struct ParamView {
    pub name: Option<Seq<char>>,
    pub ty: TypeModel,
}

impl View for HandlerParam {
    type V = ParamView;

    open spec fn view(&self) -> ParamView {
        ParamView { name: view_of(self.name), ty: self.ty@ }
    }
}

impl Clone for HandlerParam {
    fn clone(&self) -> (r: Self)
        ensures
            r@ == self@,
    {
        let name = match &self.name {
            Some(name) => Some(name.clone()),
            None => None,
        };
        HandlerParam { name, ty: self.ty.clone() }
    }
}

/// A parameter that a route can bind: its name, its type, and its place
/// among the parameters of the handler, counted from 0.
#[derive(Debug, PartialEq, Eq)]
pub struct ParameterSlot {
    pub ident: String,
    pub ty: TypeExpr,
    pub index: usize,
}

/// What a `ParameterSlot` stands for.
pub struct SlotView {
    pub ident: Seq<char>,
    pub ty: TypeModel,
    pub index: usize,
}

impl View for ParameterSlot {
    type V = SlotView;

    open spec fn view(&self) -> SlotView {
        SlotView { ident: self.ident@, ty: self.ty@, index: self.index }
    }
}

impl Clone for ParameterSlot {
    fn clone(&self) -> (r: Self)
        ensures
            r@ == self@,
    {
        ParameterSlot { ident: self.ident.clone(), ty: self.ty.clone(), index: self.index }
    }
}

/// The place of the last of the first `upto` parameters that is named
/// `name`, or -1 where none of them is.
pub open spec fn last_named(params: Seq<ParamView>, name: Seq<char>, upto: int) -> int
    decreases upto,
{
    if upto <= 0 {
        -1
    } else if params[upto - 1].name == Some(name) {
        upto - 1
    } else {
        last_named(params, name, upto - 1)
    }
}

/// The slot of the parameter at `index`, under the name `name`.
pub open spec fn slot_at(params: Seq<ParamView>, name: Seq<char>, index: int) -> SlotView {
    SlotView { ident: name, ty: params[index].ty, index: index as usize }
}

/// The pool of the first `upto` parameters: each name that one of them is
/// bound to, with the slot of the last parameter of that name.
pub open spec fn pool_upto(params: Seq<ParamView>, upto: int) -> Map<Seq<char>, SlotView> {
    Map::new(
        |name: Seq<char>| last_named(params, name, upto) >= 0,
        |name: Seq<char>| slot_at(params, name, last_named(params, name, upto)),
    )
}

/// The pool of a handler's parameters: each name that a parameter is bound
/// to, with the slot of that parameter; where several parameters have one
/// name, of the last of them.
pub open spec fn pool_of(params: Seq<ParamView>) -> Map<Seq<char>, SlotView> {
    pool_upto(params, params.len() as int)
}

/// `last_named` gives a place before `upto` that holds the name and is
/// followed by none that does, or -1 where no place holds it.
pub proof fn lemma_last_named(params: Seq<ParamView>, name: Seq<char>, upto: int)
    requires
        0 <= upto <= params.len(),
    ensures
        -1 <= last_named(params, name, upto) < upto,
        last_named(params, name, upto) >= 0 ==> params[last_named(params, name, upto)].name
            == Some(name),
        forall|i: int|
            last_named(params, name, upto) < i < upto ==> (#[trigger] params[i]).name != Some(
                name,
            ),
    decreases upto,
{
    if upto > 0 && params[upto - 1].name != Some(name) {
        lemma_last_named(params, name, upto - 1);
    }
}

/// The parameters of a handler that a route can still bind, by name.
pub struct SlotPool {
    slots: Vec<ParameterSlot>,
}

impl View for SlotPool {
    type V = Map<Seq<char>, SlotView>;

    closed spec fn view(&self) -> Map<Seq<char>, SlotView> {
        Map::new(
            |name: Seq<char>| self.place(name) >= 0,
            |name: Seq<char>| self.slots@[self.place(name)]@,
        )
    }
}

impl SlotPool {
    /// The place in the pool of the slot named `name`, or -1.
    spec fn place(&self, name: Seq<char>) -> int {
        if exists|i: int| 0 <= i < self.slots@.len() && (#[trigger] self.slots@[i]).ident@ == name {
            choose|i: int| 0 <= i < self.slots@.len() && (#[trigger] self.slots@[i]).ident@ == name
        } else {
            -1
        }
    }

    /// No two slots of the pool have one name.
    pub closed spec fn wf(&self) -> bool {
        forall|i: int, j: int|
            0 <= i < j < self.slots@.len() ==> (#[trigger] self.slots@[i]).ident@
                != (#[trigger] self.slots@[j]).ident@
    }

    /// In a pool without repeated names, a slot's name leads to its place.
    proof fn lemma_place(&self, i: int)
        requires
            self.wf(),
            0 <= i < self.slots@.len(),
        ensures
            self.place(self.slots@[i].ident@) == i,
    {
    }

    /// The place of the slot named `name`, if the pool holds one.
    fn position(&self, name: &String) -> (r: Option<usize>)
        requires
            self.wf(),
        ensures
            match r {
                Some(j) => j < self.slots@.len() && self.place(name@) == j,
                None => self.place(name@) == -1,
            },
    {
        let mut j: usize = 0;
        while j < self.slots.len()
            invariant
                j <= self.slots@.len(),
                self.wf(),
                forall|k: int| 0 <= k < j ==> (#[trigger] self.slots@[k]).ident@ != name@,
            decreases self.slots@.len() - j,
        {
            if self.slots[j].ident == *name {
                proof {
                    self.lemma_place(j as int);
                }
                return Some(j);
            }
            j += 1;
        }
        None
    }

    /// Builds the pool of a handler's parameters. A parameter that is bound
    /// to no simple name gets no slot; of several with one name, the last
    /// one gets it.
    pub fn from_params(params: &Vec<HandlerParam>) -> (pool: SlotPool)
        ensures
            pool.wf(),
            pool@ == pool_of(views(params@)),
    {
        let ghost all = views(params@);
        let mut pool = SlotPool { slots: Vec::new() };
        assert(pool@ =~= pool_upto(all, 0));
        let mut i: usize = 0;
        while i < params.len()
            invariant
                i <= params@.len(),
                all == views(params@),
                pool.wf(),
                pool@ == pool_upto(all, i as int),
            decreases params@.len() - i,
        {
            let param = &params[i];
            assert(all[i as int] == param@);
            match &param.name {
                Some(name) => {
                    let ghost before = pool;
                    let slot = ParameterSlot { ident: name.clone(), ty: param.ty.clone(), index: i };
                    match pool.position(name) {
                        Some(j) => {
                            pool.slots.remove(j);
                        },
                        None => {},
                    }
                    assert forall|k: int| 0 <= k < pool.slots@.len() implies (
                    #[trigger] pool.slots@[k]).ident@ != name@ by {
                        if before.place(name@) >= 0 {
                            let j = before.place(name@);
                            if k < j {
                                assert(pool.slots@[k] == before.slots@[k]);
                            } else {
                                assert(pool.slots@[k] == before.slots@[k + 1]);
                            }
                        } else {
                            assert(pool.slots@[k] == before.slots@[k]);
                        }
                    }
                    let ghost middle = pool;
                    assert(middle.wf()) by {
                        assert forall|a: int, b: int| 0 <= a < b < middle.slots@.len() implies (
                        #[trigger] middle.slots@[a]).ident@ != (
                        #[trigger] middle.slots@[b]).ident@ by {
                            if before.place(name@) >= 0 {
                                let j = before.place(name@);
                                let a0 = if a < j { a } else { a + 1 };
                                let b0 = if b < j { b } else { b + 1 };
                                assert(middle.slots@[a] == before.slots@[a0]);
                                assert(middle.slots@[b] == before.slots@[b0]);
                            }
                        }
                    }
                    pool.slots.push(slot);
                    proof {
                        let top = middle.slots@.len() as int;
                        assert(pool.slots@[top]@ == slot_at(all, name@, i as int));
                        assert(pool.wf());
                        pool.lemma_place(top);
                        assert forall|n: Seq<char>| #[trigger]
                            pool@.dom().contains(n) == pool_upto(all, i + 1).dom().contains(
                                n,
                            ) && (pool@.dom().contains(n) ==> pool@[n] == pool_upto(all, i + 1)[n]) by {
                            if n != name@ {
                                assert(last_named(all, n, i + 1) == last_named(all, n, i as int));
                                assert(before@.dom().contains(n) == pool_upto(
                                    all,
                                    i as int,
                                ).dom().contains(n));
                                if before.place(n) >= 0 {
                                    let p = before.place(n);
                                    let q = if before.place(name@) >= 0 && p > before.place(name@) {
                                        p - 1
                                    } else {
                                        p
                                    };
                                    assert(pool.slots@[q] == before.slots@[p]);
                                    pool.lemma_place(q);
                                    assert(before@[n] == pool_upto(all, i as int)[n]);
                                } else {
                                    if pool.place(n) >= 0 {
                                        let q = pool.place(n);
                                        let p = if before.place(name@) >= 0 && q >= before.place(
                                            name@,
                                        ) {
                                            q + 1
                                        } else {
                                            q
                                        };
                                        assert(pool.slots@[q] == before.slots@[p]);
                                    }
                                }
                            }
                        }
                        assert(pool@ =~= pool_upto(all, i + 1));
                    }
                },
                None => {
                    assert(pool@ =~= pool_upto(all, i + 1));
                },
            }
            i += 1;
        }
        pool
    }

    /// Takes the slot named `name` out of the pool, if the pool holds one.
    pub fn take(&mut self, name: &String) -> (r: Option<ParameterSlot>)
        requires
            old(self).wf(),
        ensures
            final(self).wf(),
            final(self)@ == old(self)@.remove(name@),
            view_of(r) == if old(self)@.contains_key(name@) {
                Some(old(self)@[name@])
            } else {
                None
            },
    {
        let ghost before = *self;
        match self.position(name) {
            Some(j) => {
                let slot = self.slots.remove(j);
                proof {
                    let after = *self;
                    assert forall|a: int| 0 <= a < after.slots@.len() implies #[trigger] after.slots@[a]
                        == before.slots@[if a < j { a } else { a + 1 }] by {}
                    assert(after.wf()) by {
                        assert forall|a: int, b: int| 0 <= a < b < after.slots@.len() implies (
                        #[trigger] after.slots@[a]).ident@ != (
                        #[trigger] after.slots@[b]).ident@ by {
                            let a0 = if a < j { a } else { a + 1 };
                            let b0 = if b < j { b } else { b + 1 };
                            assert(after.slots@[a] == before.slots@[a0]);
                            assert(after.slots@[b] == before.slots@[b0]);
                        }
                    }
                    assert forall|n: Seq<char>| #[trigger]
                        after@.dom().contains(n) == before@.remove(name@).dom().contains(n) && (
                        after@.dom().contains(n) ==> after@[n] == before@.remove(name@)[n]) by {
                        if n != name@ {
                            if before.place(n) >= 0 {
                                let p = before.place(n);
                                let q = if p > j { p - 1 } else { p };
                                assert(after.slots@[q] == before.slots@[p]);
                                after.lemma_place(q);
                            } else if after.place(n) >= 0 {
                                let q = after.place(n);
                                let p = if q >= j { q + 1 } else { q };
                                assert(after.slots@[q] == before.slots@[p]);
                            }
                        } else {
                            if after.place(n) >= 0 {
                                let q = after.place(n);
                                let p = if q >= j { q + 1 } else { q };
                                assert(after.slots@[q] == before.slots@[p]);
                                before.lemma_place(p);
                            }
                        }
                    }
                    assert(after@ =~= before@.remove(name@));
                }
                Some(slot)
            },
            None => {
                assert(self@ =~= before@.remove(name@));
                None
            },
        }
    }
}

} // verus!
