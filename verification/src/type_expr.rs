//! Type expressions, as far as the route compiler looks into them: the text
//! of a type as it was written, and, where the type is a path, its segments
//! with their generic arguments.

use vstd::prelude::*;
use vstd::string::StringExecFns;
use crate::text::view_of;

verus! {

/// A type as it is written in a handler's signature or in a route.
#[derive(Debug, PartialEq, Eq)]
pub struct TypeExpr {
    /// The type as it was written.
    pub text: String,
    /// What form of type it is.
    pub kind: TypeKind,
}

/// The form of a type.
#[derive(Debug, PartialEq, Eq)]
pub enum TypeKind {
    /// A path such as `axum::extract::State<T>`: its segments, from left to
    /// right.
    Path(Vec<TypeSegment>),
    /// Any other form: a tuple, a reference, an array and so on.
    Other,
}

/// One segment of a path type.
#[derive(Debug, PartialEq, Eq)]
pub struct TypeSegment {
    /// The name of the segment.
    pub ident: String,
    /// The arguments between `<` and `>`, where the segment has such a list.
    pub arguments: Option<Vec<GenericArgument>>,
}

/// One argument between `<` and `>`.
#[derive(Debug, PartialEq, Eq)]
pub enum GenericArgument {
    /// A type.
    Type(TypeExpr),
    /// Anything else: a lifetime, a constant, a binding.
    Other,
}

/// What a `TypeExpr` stands for.
pub struct TypeModel {
    pub text: Seq<char>,
    pub kind: KindModel,
}

/// What a `TypeKind` stands for.
pub enum KindModel {
    Path(Seq<SegmentModel>),
    Other,
}

/// What a `TypeSegment` stands for.
pub struct SegmentModel {
    pub ident: Seq<char>,
    pub arguments: Option<Seq<ArgumentModel>>,
}

/// What a `GenericArgument` stands for.
pub enum ArgumentModel {
    Type(TypeModel),
    Other,
}

impl View for TypeExpr {
    type V = TypeModel;

    open spec fn view(&self) -> TypeModel
        decreases self,
    {
        TypeModel {
            text: self.text@,
            kind: match self.kind {
                TypeKind::Path(segments) => KindModel::Path(
                    Seq::new(
                        segments@.len(),
                        |i: int|
                            if 0 <= i < segments@.len() {
                                segments@[i]@
                            } else {
                                arbitrary()
                            },
                    ),
                ),
                TypeKind::Other => KindModel::Other,
            },
        }
    }
}

impl View for TypeSegment {
    type V = SegmentModel;

    open spec fn view(&self) -> SegmentModel
        decreases self,
    {
        SegmentModel {
            ident: self.ident@,
            arguments: match self.arguments {
                Some(arguments) => Some(
                    Seq::new(
                        arguments@.len(),
                        |i: int|
                            if 0 <= i < arguments@.len() {
                                arguments@[i]@
                            } else {
                                arbitrary()
                            },
                    ),
                ),
                None => None,
            },
        }
    }
}

impl View for GenericArgument {
    type V = ArgumentModel;

    open spec fn view(&self) -> ArgumentModel
        decreases self,
    {
        match self {
            GenericArgument::Type(ty) => ArgumentModel::Type(ty@),
            GenericArgument::Other => ArgumentModel::Other,
        }
    }
}

/// The unit type, `()`.
pub open spec fn unit_type() -> TypeModel {
    TypeModel { text: "()"@, kind: KindModel::Other }
}

impl TypeModel {
    /// The type that this type wraps as a state: where this type is a path
    /// whose last segment is named `State` and has exactly one argument
    /// between `<` and `>`, a type, that argument. Written `State<T>`, with
    /// or without a path before it, that is `T`.
    pub open spec fn state_argument(self) -> Option<TypeModel> {
        match self.kind {
            KindModel::Path(segments) => {
                if segments.len() > 0 && segments.last().ident == "State"@ {
                    match segments.last().arguments {
                        Some(arguments) => {
                            if arguments.len() == 1 {
                                match arguments[0] {
                                    ArgumentModel::Type(ty) => Some(ty),
                                    ArgumentModel::Other => None,
                                }
                            } else {
                                None
                            }
                        },
                        None => None,
                    }
                } else {
                    None
                }
            },
            KindModel::Other => None,
        }
    }
}

impl TypeExpr {
    /// The unit type.
    pub fn unit() -> (r: TypeExpr)
        ensures
            r@ == unit_type(),
    {
        TypeExpr { text: String::from_str("()"), kind: TypeKind::Other }
    }

    /// The type that this type wraps as a state, if it is written as
    /// `State<T>`.
    pub fn state_argument(&self) -> (r: Option<TypeExpr>)
        ensures
            view_of(r) == self@.state_argument(),
    {
        match &self.kind {
            TypeKind::Path(segments) => {
                let n: usize = segments.len();
                if n == 0 {
                    return None;
                }
                let last = &segments[n - 1];
                assert(self@.kind->Path_0.last() == last@);
                if last.ident != String::from_str("State") {
                    return None;
                }
                match &last.arguments {
                    Some(arguments) => {
                        if arguments.len() != 1 {
                            return None;
                        }
                        assert(last@.arguments->Some_0[0] == arguments@[0]@);
                        match &arguments[0] {
                            GenericArgument::Type(ty) => Some(ty.clone()),
                            GenericArgument::Other => None,
                        }
                    },
                    None => None,
                }
            },
            TypeKind::Other => None,
        }
    }
}

/// Copies `segments` one by one.
fn clone_segments(segments: &Vec<TypeSegment>) -> (copies: Vec<TypeSegment>)
    ensures
        copies@.len() == segments@.len(),
        forall|j: int| 0 <= j < segments@.len() ==> copies@[j]@ == segments@[j]@,
    decreases segments,
{
    let mut copies: Vec<TypeSegment> = Vec::new();
    let mut i: usize = 0;
    while i < segments.len()
        invariant
            i <= segments@.len(),
            copies@.len() == i,
            forall|j: int| 0 <= j < i ==> copies@[j]@ == segments@[j]@,
        decreases segments@.len() - i,
    {
        proof {
            vstd::std_specs::vec::axiom_vec_index_decreases(*segments, i as int);
        }
        copies.push(segments[i].clone());
        i += 1;
    }
    copies
}

/// Copies `arguments` one by one.
fn clone_arguments(arguments: &Vec<GenericArgument>) -> (copies: Vec<GenericArgument>)
    ensures
        copies@.len() == arguments@.len(),
        forall|j: int| 0 <= j < arguments@.len() ==> copies@[j]@ == arguments@[j]@,
    decreases arguments,
{
    let mut copies: Vec<GenericArgument> = Vec::new();
    let mut i: usize = 0;
    while i < arguments.len()
        invariant
            i <= arguments@.len(),
            copies@.len() == i,
            forall|j: int| 0 <= j < i ==> copies@[j]@ == arguments@[j]@,
        decreases arguments@.len() - i,
    {
        proof {
            vstd::std_specs::vec::axiom_vec_index_decreases(*arguments, i as int);
        }
        copies.push(arguments[i].clone());
        i += 1;
    }
    copies
}

impl Clone for TypeExpr {
    fn clone(&self) -> (r: Self)
        ensures
            r@ == self@,
        decreases self,
    {
        let kind = match &self.kind {
            TypeKind::Path(segments) => TypeKind::Path(clone_segments(segments)),
            TypeKind::Other => TypeKind::Other,
        };
        let r = TypeExpr { text: self.text.clone(), kind };
        proof {
            if self.kind is Path {
                assert(r@.kind->Path_0 =~= self@.kind->Path_0);
            }
        }
        r
    }
}

impl Clone for TypeSegment {
    fn clone(&self) -> (r: Self)
        ensures
            r@ == self@,
        decreases self,
    {
        let arguments = match &self.arguments {
            Some(arguments) => Some(clone_arguments(arguments)),
            None => None,
        };
        let r = TypeSegment { ident: self.ident.clone(), arguments };
        proof {
            if self.arguments is Some {
                assert(r@.arguments->Some_0 =~= self@.arguments->Some_0);
            }
        }
        r
    }
}

impl Clone for GenericArgument {
    fn clone(&self) -> (r: Self)
        ensures
            r@ == self@,
        decreases self,
    {
        match self {
            GenericArgument::Type(ty) => GenericArgument::Type(ty.clone()),
            GenericArgument::Other => GenericArgument::Other,
        }
    }
}

} // verus!
