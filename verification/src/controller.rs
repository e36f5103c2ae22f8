//! The attributes of a controller: `path = ..`, `state = ..` and any number
//! of `middleware = ..`.

use vstd::prelude::*;
use vstd::string::StringExecFns;
use crate::text::{view_of, views};

verus! {

/// The name of a controller attribute.
#[derive(Clone, Copy, Debug, PartialEq, Eq, Structural)]
pub enum AttrName {
    Path,
    State,
    Middleware,
}

impl AttrName {
    /// The attribute that `name` names, if it names one.
    pub open spec fn of_name(name: Seq<char>) -> Option<AttrName> {
        if name == "path"@ {
            Some(AttrName::Path)
        } else if name == "state"@ {
            Some(AttrName::State)
        } else if name == "middleware"@ {
            Some(AttrName::Middleware)
        } else {
            None
        }
    }

    /// Decodes the name of an attribute.
    pub fn from_name(name: &str) -> (r: Option<AttrName>)
        ensures
            r == AttrName::of_name(name@),
    {
        let word: String = String::from_str(name);
        if word == String::from_str("path") {
            Some(AttrName::Path)
        } else if word == String::from_str("state") {
            Some(AttrName::State)
        } else if word == String::from_str("middleware") {
            Some(AttrName::Middleware)
        } else {
            None
        }
    }
}

/// One attribute as it is written: its name and the expression after `=`.
#[derive(Debug, PartialEq, Eq)]
pub struct NameValue {
    pub name: AttrName,
    pub value: String,
}

/// What a `NameValue` stands for.
pub struct NameValueView {
    pub name: AttrName,
    pub value: Seq<char>,
}

impl View for NameValue {
    type V = NameValueView;

    open spec fn view(&self) -> NameValueView {
        NameValueView { name: self.name, value: self.value@ }
    }
}

/// The attributes of a controller, collected.
#[derive(Debug, PartialEq, Eq)]
pub struct MyAttrs {
    pub middlewares: Vec<String>,
    pub path: Option<String>,
    pub state: Option<String>,
}

/// What a `MyAttrs` stands for.
pub struct MyAttrsView {
    pub middlewares: Seq<Seq<char>>,
    pub path: Option<Seq<char>>,
    pub state: Option<Seq<char>>,
}

impl View for MyAttrs {
    type V = MyAttrsView;

    open spec fn view(&self) -> MyAttrsView {
        MyAttrsView {
            middlewares: views(self.middlewares@),
            path: view_of(self.path),
            state: view_of(self.state),
        }
    }
}

/// An attribute that can stand only once stands a second time: which one,
/// and the places of the first and of the second among the attributes.
#[derive(Clone, Copy, Debug, PartialEq, Eq, Structural)]
pub struct AttrError {
    pub name: AttrName,
    pub first: usize,
    pub second: usize,
}

/// The place of the first of the first `upto` attributes that is named
/// `name`; `upto` where none of them is.
pub open spec fn first_named(pairs: Seq<NameValueView>, name: AttrName, upto: int) -> int
    decreases upto,
{
    if upto <= 0 {
        0
    } else {
        let before = first_named(pairs, name, upto - 1);
        if before < upto - 1 {
            before
        } else if pairs[upto - 1].name == name {
            upto - 1
        } else {
            upto
        }
    }
}

/// The values of the attributes named `name`, in order.
pub open spec fn values_named(pairs: Seq<NameValueView>, name: AttrName) -> Seq<Seq<char>>
    decreases pairs.len(),
{
    if pairs.len() == 0 {
        Seq::empty()
    } else if pairs.last().name == name {
        values_named(pairs.drop_last(), name).push(pairs.last().value)
    } else {
        values_named(pairs.drop_last(), name)
    }
}

/// Whether the `i`-th attribute repeats one that can stand only once.
pub open spec fn repeats(pairs: Seq<NameValueView>, i: int) -> bool {
    pairs[i].name != AttrName::Middleware && first_named(pairs, pairs[i].name, i) < i
}

/// The place of the first attribute from `from` on that repeats one that can
/// stand only once; the number of attributes where there is none.
pub open spec fn first_repeat(pairs: Seq<NameValueView>, from: int) -> int
    decreases pairs.len() - from,
{
    if from >= pairs.len() {
        pairs.len() as int
    } else if repeats(pairs, from) {
        from
    } else {
        first_repeat(pairs, from + 1)
    }
}

/// The only value in `values`, if there is one.
pub open spec fn only(values: Seq<Seq<char>>) -> Option<Seq<char>> {
    if values.len() == 0 {
        None
    } else {
        Some(values[0])
    }
}

/// What collecting `pairs` gives: the path and the state where they are
/// given, and the middlewares in order; or the first attribute that repeats
/// `path` or `state`.
pub open spec fn collected(pairs: Seq<NameValueView>) -> Result<MyAttrsView, AttrError> {
    let i = first_repeat(pairs, 0);
    if i < pairs.len() {
        Err(
            AttrError {
                name: pairs[i].name,
                first: first_named(pairs, pairs[i].name, i) as usize,
                second: i as usize,
            },
        )
    } else {
        Ok(
            MyAttrsView {
                middlewares: values_named(pairs, AttrName::Middleware),
                path: only(values_named(pairs, AttrName::Path)),
                state: only(values_named(pairs, AttrName::State)),
            },
        )
    }
}

/// `first_named` gives the place of an attribute of that name before which
/// there is none, or `upto`.
proof fn lemma_first_named(pairs: Seq<NameValueView>, name: AttrName, upto: int)
    requires
        0 <= upto <= pairs.len(),
    ensures
        0 <= first_named(pairs, name, upto) <= upto,
        first_named(pairs, name, upto) < upto ==> pairs[first_named(pairs, name, upto)].name
            == name,
        forall|j: int| 0 <= j < first_named(pairs, name, upto) ==> (#[trigger] pairs[j]).name != name,
        first_named(pairs, name, upto) == upto ==> values_named(pairs.take(upto), name).len() == 0,
        first_named(pairs, name, upto) < upto ==> values_named(pairs.take(upto), name).len() > 0
            && values_named(pairs.take(upto), name)[0] == pairs[first_named(
            pairs,
            name,
            upto,
        )].value,
    decreases upto,
{
    if upto > 0 {
        lemma_first_named(pairs, name, upto - 1);
        assert(pairs.take(upto).drop_last() =~= pairs.take(upto - 1));
        assert(pairs.take(upto).last() == pairs[upto - 1]);
    } else {
        assert(pairs.take(0) =~= Seq::<NameValueView>::empty());
    }
}

/// Skipping attributes that repeat nothing does not change which is the
/// first to repeat.
proof fn lemma_first_repeat(pairs: Seq<NameValueView>, from: int, to: int)
    requires
        0 <= from <= to <= pairs.len(),
        forall|j: int| from <= j < to ==> !repeats(pairs, j),
    ensures
        first_repeat(pairs, from) == first_repeat(pairs, to),
    decreases to - from,
{
    if from < to {
        lemma_first_repeat(pairs, from + 1, to);
    }
}

impl MyAttrs {
    /// Collects the attributes of a controller. `path` and `state` can stand
    /// once each; `middleware` any number of times.
    pub fn parse(pairs: &Vec<NameValue>) -> (r: Result<MyAttrs, AttrError>)
        ensures
            match r {
                Ok(attrs) => collected(views(pairs@)) == Ok::<MyAttrsView, AttrError>(attrs@),
                Err(e) => collected(views(pairs@)) == Err::<MyAttrsView, AttrError>(e),
            },
    {
        let ghost all = views(pairs@);
        let mut path: Option<(usize, String)> = None;
        let mut state: Option<(usize, String)> = None;
        let mut middlewares: Vec<String> = Vec::new();
        let mut i: usize = 0;
        assert(all.take(0) =~= Seq::<NameValueView>::empty());
        while i < pairs.len()
            invariant
                i <= pairs@.len(),
                all == views(pairs@),
                forall|j: int| 0 <= j < i ==> !repeats(all, j),
                views(middlewares@) == values_named(all.take(i as int), AttrName::Middleware),
                match path {
                    Some(p) => p.0 == first_named(all, AttrName::Path, i as int) && p.0 < i && p.1@
                        == all[p.0 as int].value,
                    None => first_named(all, AttrName::Path, i as int) == i,
                },
                match state {
                    Some(p) => p.0 == first_named(all, AttrName::State, i as int) && p.0 < i && p.1@
                        == all[p.0 as int].value,
                    None => first_named(all, AttrName::State, i as int) == i,
                },
            decreases pairs@.len() - i,
        {
            let pair = &pairs[i];
            proof {
                assert(all[i as int] == pair@);
                assert(all.take(i + 1).drop_last() =~= all.take(i as int));
                assert(all.take(i + 1).last() == all[i as int]);
                lemma_first_repeat(all, 0, i as int);
            }
            match pair.name {
                AttrName::Path => {
                    match &path {
                        Some(p) => {
                            return Err(AttrError { name: AttrName::Path, first: p.0, second: i });
                        },
                        None => {},
                    }
                    path = Some((i, pair.value.clone()));
                },
                AttrName::State => {
                    match &state {
                        Some(p) => {
                            return Err(AttrError { name: AttrName::State, first: p.0, second: i });
                        },
                        None => {},
                    }
                    state = Some((i, pair.value.clone()));
                },
                AttrName::Middleware => {
                    let ghost before = views(middlewares@);
                    middlewares.push(pair.value.clone());
                    assert(views(middlewares@) =~= before.push(pair@.value));
                },
            }
            i += 1;
        }
        proof {
            lemma_first_repeat(all, 0, i as int);
            assert(all.take(i as int) =~= all);
            lemma_first_named(all, AttrName::Path, i as int);
            lemma_first_named(all, AttrName::State, i as int);
        }
        let path = match path {
            Some(p) => Some(p.1),
            None => None,
        };
        let state = match state {
            Some(p) => Some(p.1),
            None => None,
        };
        Ok(MyAttrs { middlewares, path, state })
    }
}

} // verus!
