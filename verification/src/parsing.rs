//! The route grammar: `("/" segment)* ("?" name ("&" name)*)?`, where a
//! segment is `:name` (a capture), `*name` (a wildcard, which takes the rest
//! of the path and so comes last) or literal text. The path `/` alone has no
//! segments.

use vstd::prelude::*;
use vstd::string::StringExecFns;
use vstd::string::StrSliceExecFns;
use crate::ident::{is_ident, is_identifier_at};
use crate::method::Method;
use crate::text::{
    chars_of, fields, find, find_char, lemma_fields, lemma_find, slice, split_fields, view_of,
    views, Span,
};
use crate::type_expr::{TypeExpr, TypeModel};

verus! {

/// A name that a route declares, and where in the route it stands.
#[derive(Debug, PartialEq, Eq)]
pub struct Name {
    pub text: String,
    pub span: Span,
}

/// What a `Name` stands for.
pub struct NameView {
    pub text: Seq<char>,
    pub span: Span,
}

impl View for Name {
    type V = NameView;

    open spec fn view(&self) -> NameView {
        NameView { text: self.text@, span: self.span }
    }
}

impl Clone for Name {
    fn clone(&self) -> (r: Self)
        ensures
            r@ == self@,
    {
        Name { text: self.text.clone(), span: self.span }
    }
}

/// One segment of a route's path.
#[derive(Debug, PartialEq, Eq)]
pub enum PathSegment {
    /// Literal text.
    Static(String),
    /// `:name`: one component of the path, handed to the parameter `name`.
    Capture(Name),
    /// `*name`: the rest of the path, handed to the parameter `name`.
    Wildcard(Name),
}

/// What a `PathSegment` stands for.
pub enum SegmentView {
    Static(Seq<char>),
    Capture(NameView),
    Wildcard(NameView),
}

/// A path segment without regard to where it stands or what it is bound to.
pub enum Piece {
    Static(Seq<char>),
    Capture(Seq<char>),
    Wildcard(Seq<char>),
}

impl View for PathSegment {
    type V = SegmentView;

    open spec fn view(&self) -> SegmentView {
        match self {
            PathSegment::Static(text) => SegmentView::Static(text@),
            PathSegment::Capture(name) => SegmentView::Capture(name@),
            PathSegment::Wildcard(name) => SegmentView::Wildcard(name@),
        }
    }
}

impl SegmentView {
    /// The name that the segment declares, if it declares one.
    pub open spec fn declared(self) -> Option<NameView> {
        match self {
            SegmentView::Static(_) => None,
            SegmentView::Capture(name) => Some(name),
            SegmentView::Wildcard(name) => Some(name),
        }
    }

    /// The text of the name that the segment declares, if it declares one.
    pub open spec fn declared_text(self) -> Option<Seq<char>> {
        match self {
            SegmentView::Static(_) => None,
            SegmentView::Capture(name) => Some(name.text),
            SegmentView::Wildcard(name) => Some(name.text),
        }
    }

    /// The segment without its place in the route.
    pub open spec fn piece(self) -> Piece {
        match self {
            SegmentView::Static(text) => Piece::Static(text),
            SegmentView::Capture(name) => Piece::Capture(name.text),
            SegmentView::Wildcard(name) => Piece::Wildcard(name.text),
        }
    }
}

/// What is wrong with a route's text.
#[derive(Clone, Copy, Debug, PartialEq, Eq, Structural)]
pub enum SyntaxErrorKind {
    /// The method keyword stands for no method.
    UnknownMethod,
    /// The route does not begin with `/`.
    MissingSlash,
    /// Nothing stands between two `/`, or after the last one.
    EmptySegment,
    /// Nothing follows the `:` or `*` of a segment.
    EmptyPathParameter,
    /// What follows the `:` or `*` of a segment is no identifier.
    InvalidPathParameter,
    /// An earlier segment declares the same name.
    DuplicatePathParameter,
    /// A wildcard stands before the last segment.
    MisplacedWildcard,
    /// Nothing follows the `?`.
    EmptyQuery,
    /// Nothing stands between two `&`, before the first or after the last.
    EmptyQueryParameter,
    /// A query name is no identifier.
    InvalidQueryParameter,
    /// An earlier query name is the same.
    DuplicateQueryParameter,
}

/// A route's text is malformed: what is wrong, where, and the text that is
/// at fault. The span counts within the route's literal, but for an unknown
/// method, where it counts within the keyword.
#[derive(Debug, PartialEq, Eq)]
pub struct SyntaxError {
    pub kind: SyntaxErrorKind,
    pub span: Span,
    pub text: String,
}

/// What a `SyntaxError` stands for.
pub struct SyntaxErrorView {
    pub kind: SyntaxErrorKind,
    pub span: Span,
    pub text: Seq<char>,
}

impl View for SyntaxError {
    type V = SyntaxErrorView;

    open spec fn view(&self) -> SyntaxErrorView {
        SyntaxErrorView { kind: self.kind, span: self.span, text: self.text@ }
    }
}

/// The error of kind `kind` at `span` of the text `s`.
pub open spec fn fault(kind: SyntaxErrorKind, span: Span, s: Seq<char>) -> SyntaxErrorView {
    SyntaxErrorView { kind, span, text: span.of(s) }
}

/// Where the query of `s` begins: the position of its first `?`, or its
/// length where it has none.
pub open spec fn query_mark(s: Seq<char>) -> int {
    find(s, '?', 0, s.len() as int)
}

/// The stretches of the path segments of `s`: what stands between the `/`
/// of its path, which ends before the query. The path `/` has none.
pub open spec fn path_spans(s: Seq<char>) -> Seq<Span> {
    if query_mark(s) <= 1 {
        Seq::empty()
    } else {
        fields(s, '/', 1, query_mark(s))
    }
}

/// The stretches of the query names of `s`: what stands between the `&`
/// after its first `?`. A text without `?` has none.
pub open spec fn query_spans(s: Seq<char>) -> Seq<Span> {
    if query_mark(s) >= s.len() {
        Seq::empty()
    } else {
        fields(s, '&', query_mark(s) + 1, s.len() as int)
    }
}

/// The stretch of the name in a segment that begins with `:` or `*`.
pub open spec fn name_span(span: Span) -> Span {
    Span { start: (span.start + 1) as usize, end: span.end }
}

/// The segment that the stretch `span` of `s` holds.
pub open spec fn segment_of(s: Seq<char>, span: Span) -> SegmentView {
    let piece = span.of(s);
    let name = NameView { text: name_span(span).of(s), span: name_span(span) };
    if piece.len() > 0 && piece[0] == ':' {
        SegmentView::Capture(name)
    } else if piece.len() > 0 && piece[0] == '*' {
        SegmentView::Wildcard(name)
    } else {
        SegmentView::Static(piece)
    }
}

/// The `i`-th path segment of `s`.
pub open spec fn segment_at(s: Seq<char>, i: int) -> SegmentView {
    segment_of(s, path_spans(s)[i])
}

/// The `i`-th query name of `s`.
pub open spec fn query_name_at(s: Seq<char>, i: int) -> NameView {
    NameView { text: query_spans(s)[i].of(s), span: query_spans(s)[i] }
}

/// What is wrong with the `i`-th path segment of `s`, if anything. A segment
/// must not be empty; the name of a capture or wildcard must not be empty,
/// must be an identifier, and must differ from the names that earlier
/// segments declare; a wildcard must be the last segment.
pub open spec fn path_fault(s: Seq<char>, i: int) -> Option<SyntaxErrorView> {
    let span = path_spans(s)[i];
    match segment_at(s, i).declared() {
        None => if span.of(s).len() == 0 {
            Some(fault(SyntaxErrorKind::EmptySegment, span, s))
        } else {
            None
        },
        Some(name) => if name.text.len() == 0 {
            Some(fault(SyntaxErrorKind::EmptyPathParameter, span, s))
        } else if !is_ident(name.text) {
            Some(fault(SyntaxErrorKind::InvalidPathParameter, name.span, s))
        } else if exists|j: int|
            0 <= j < i && (#[trigger] segment_at(s, j)).declared_text() == Some(name.text) {
            Some(fault(SyntaxErrorKind::DuplicatePathParameter, name.span, s))
        } else if segment_at(s, i) is Wildcard && i + 1 < path_spans(s).len() {
            Some(fault(SyntaxErrorKind::MisplacedWildcard, name.span, s))
        } else {
            None
        },
    }
}

/// What is wrong with the `i`-th query name of `s`, if anything. After `?`
/// must stand at least one name; a name must not be empty, must be an
/// identifier, and must differ from the earlier query names.
pub open spec fn query_fault(s: Seq<char>, i: int) -> Option<SyntaxErrorView> {
    let name = query_name_at(s, i);
    if name.text.len() == 0 {
        if query_spans(s).len() == 1 {
            Some(
                fault(
                    SyntaxErrorKind::EmptyQuery,
                    Span { start: query_mark(s) as usize, end: s.len() as usize },
                    s,
                ),
            )
        } else {
            Some(fault(SyntaxErrorKind::EmptyQueryParameter, name.span, s))
        }
    } else if !is_ident(name.text) {
        Some(fault(SyntaxErrorKind::InvalidQueryParameter, name.span, s))
    } else if exists|j: int| 0 <= j < i && (#[trigger] query_name_at(s, j)).text == name.text {
        Some(fault(SyntaxErrorKind::DuplicateQueryParameter, name.span, s))
    } else {
        None
    }
}

/// The fault of the first path segment of `s` from the `from`-th on that has
/// one.
pub open spec fn first_path_fault(s: Seq<char>, from: int) -> Option<SyntaxErrorView>
    decreases path_spans(s).len() - from,
{
    if from >= path_spans(s).len() {
        None
    } else if path_fault(s, from) is Some {
        path_fault(s, from)
    } else {
        first_path_fault(s, from + 1)
    }
}

/// The fault of the first query name of `s` from the `from`-th on that has
/// one.
pub open spec fn first_query_fault(s: Seq<char>, from: int) -> Option<SyntaxErrorView>
    decreases query_spans(s).len() - from,
{
    if from >= query_spans(s).len() {
        None
    } else if query_fault(s, from) is Some {
        query_fault(s, from)
    } else {
        first_query_fault(s, from + 1)
    }
}

/// What is wrong with the text `s` of a route, if anything: that it does not
/// begin with `/`, else the first fault among its path segments, else the
/// first among its query names.
pub open spec fn literal_fault(s: Seq<char>) -> Option<SyntaxErrorView> {
    if s.len() == 0 || s[0] != '/' {
        Some(
            fault(
                SyntaxErrorKind::MissingSlash,
                Span { start: 0, end: query_mark(s) as usize },
                s,
            ),
        )
    } else if first_path_fault(s, 0) is Some {
        first_path_fault(s, 0)
    } else {
        first_query_fault(s, 0)
    }
}

/// The path segments that the text `s` of a route declares, in order.
pub open spec fn segments_of(s: Seq<char>) -> Seq<SegmentView> {
    Seq::new(path_spans(s).len(), |i: int| segment_at(s, i))
}

/// The query names that the text `s` of a route declares, in order.
pub open spec fn query_names_of(s: Seq<char>) -> Seq<NameView> {
    Seq::new(query_spans(s).len(), |i: int| query_name_at(s, i))
}

/// Whether `text` can stand as a literal segment of a path: it is not
/// empty, holds neither `/` nor `?`, and does not begin with `:` or `*`.
pub open spec fn static_text(text: Seq<char>) -> bool {
    &&& text.len() > 0
    &&& text[0] != ':'
    &&& text[0] != '*'
    &&& forall|k: int| 0 <= k < text.len() ==> text[k] != '/' && text[k] != '?'
}

/// What holds of every route that the parser accepts: a literal segment is
/// not empty, is free of `/` and `?` and begins with neither `:` nor `*`;
/// the name of a capture or wildcard is an identifier that no earlier
/// segment declares; a wildcard is the last segment; a query name is an
/// identifier that differs from the earlier query names; and each name is
/// what stands in the text at its span.
pub proof fn well_formed_when_parsed(s: Seq<char>)
    requires
        s.len() <= usize::MAX,
        literal_fault(s) is None,
    ensures
        s.len() > 0 && s[0] == '/',
        forall|i: int|
            0 <= i < path_spans(s).len() ==> match #[trigger] segment_at(s, i) {
                SegmentView::Static(text) => static_text(text),
                SegmentView::Capture(name) => is_ident(name.text) && name.span.of(s) == name.text,
                SegmentView::Wildcard(name) => is_ident(name.text) && name.span.of(s) == name.text
                    && i == path_spans(s).len() - 1,
            },
        forall|i: int, j: int|
            0 <= j < i < path_spans(s).len() && segment_at(s, i).declared_text() is Some
                ==> #[trigger] segment_at(s, j).declared_text() != #[trigger] segment_at(
                s,
                i,
            ).declared_text(),
        forall|i: int|
            0 <= i < query_spans(s).len() ==> is_ident((#[trigger] query_name_at(s, i)).text)
                && query_name_at(s, i).span.of(s) == query_name_at(s, i).text,
        forall|i: int, j: int|
            0 <= j < i < query_spans(s).len() ==> (#[trigger] query_name_at(s, j)).text != (
            #[trigger] query_name_at(s, i)).text,
{
    literal_fault_is_first(s);
    lemma_find(s, '?', 0, s.len() as int);
    let mark = query_mark(s);
    if mark > 1 {
        lemma_fields(s, '/', 1, mark);
    }
    assert forall|i: int| 0 <= i < path_spans(s).len() implies match #[trigger] segment_at(s, i) {
        SegmentView::Static(text) => static_text(text),
        SegmentView::Capture(name) => is_ident(name.text) && name.span.of(s) == name.text,
        SegmentView::Wildcard(name) => is_ident(name.text) && name.span.of(s) == name.text && i
            == path_spans(s).len() - 1,
    } by {
        assert(path_fault(s, i) is None);
        let span = path_spans(s)[i];
        let text = span.of(s);
        if segment_at(s, i) is Static {
            assert forall|k: int| 0 <= k < text.len() implies text[k] != '/' && text[k] != '?' by {
                assert(text[k] == s[span.start + k]);
            }
        }
    }
    assert forall|i: int, j: int|
        0 <= j < i < path_spans(s).len() && segment_at(s, i).declared_text() is Some implies #[trigger] segment_at(
        s,
        j,
    ).declared_text() != #[trigger] segment_at(s, i).declared_text() by {
        assert(path_fault(s, i) is None);
    }
    assert forall|i: int| 0 <= i < query_spans(s).len() implies is_ident(
        (#[trigger] query_name_at(s, i)).text,
    ) && query_name_at(s, i).span.of(s) == query_name_at(s, i).text by {
        assert(query_fault(s, i) is None);
    }
    assert forall|i: int, j: int| 0 <= j < i < query_spans(s).len() implies (
    #[trigger] query_name_at(s, j)).text != (#[trigger] query_name_at(s, i)).text by {
        assert(query_fault(s, i) is None);
    }
}

/// Skipping segments without a fault does not change which fault is first.
proof fn lemma_first_path_fault(s: Seq<char>, from: int, to: int)
    requires
        0 <= from <= to <= path_spans(s).len(),
        forall|j: int| from <= j < to ==> path_fault(s, j) is None,
    ensures
        first_path_fault(s, from) == first_path_fault(s, to),
    decreases to - from,
{
    if from < to {
        lemma_first_path_fault(s, from + 1, to);
    }
}

/// Skipping query names without a fault does not change which fault is first.
proof fn lemma_first_query_fault(s: Seq<char>, from: int, to: int)
    requires
        0 <= from <= to <= query_spans(s).len(),
        forall|j: int| from <= j < to ==> query_fault(s, j) is None,
    ensures
        first_query_fault(s, from) == first_query_fault(s, to),
    decreases to - from,
{
    if from < to {
        lemma_first_query_fault(s, from + 1, to);
    }
}

/// The text of a route has no fault exactly if it begins with `/` and none
/// of its path segments and query names has one; else its fault is that of
/// the first segment or name that has one, path before query.
pub proof fn literal_fault_is_first(s: Seq<char>)
    ensures
        literal_fault(s) is None <==> {
            &&& s.len() > 0 && s[0] == '/'
            &&& forall|i: int| 0 <= i < path_spans(s).len() ==> path_fault(s, i) is None
            &&& forall|i: int| 0 <= i < query_spans(s).len() ==> query_fault(s, i) is None
        },
        forall|i: int|
            s.len() > 0 && s[0] == '/' && 0 <= i < path_spans(s).len() && path_fault(s, i) is Some
                && (forall|j: int| 0 <= j < i ==> path_fault(s, j) is None) ==> literal_fault(s)
                == #[trigger] path_fault(s, i),
        forall|i: int|
            s.len() > 0 && s[0] == '/' && 0 <= i < query_spans(s).len() && query_fault(s, i) is Some
                && (forall|j: int| 0 <= j < path_spans(s).len() ==> path_fault(s, j) is None)
                && (forall|j: int| 0 <= j < i ==> query_fault(s, j) is None) ==> literal_fault(s)
                == #[trigger] query_fault(s, i),
{
    assert forall|i: int|
        s.len() > 0 && s[0] == '/' && 0 <= i < path_spans(s).len() && path_fault(s, i) is Some && (
        forall|j: int| 0 <= j < i ==> path_fault(s, j) is None) implies literal_fault(s)
        == #[trigger] path_fault(s, i) by {
        lemma_first_path_fault(s, 0, i);
    }
    assert forall|i: int|
        s.len() > 0 && s[0] == '/' && 0 <= i < query_spans(s).len() && query_fault(s, i) is Some
            && (forall|j: int| 0 <= j < path_spans(s).len() ==> path_fault(s, j) is None) && (
        forall|j: int| 0 <= j < i ==> query_fault(s, j) is None) implies literal_fault(s)
        == #[trigger] query_fault(s, i) by {
        lemma_first_path_fault(s, 0, path_spans(s).len() as int);
        lemma_first_query_fault(s, 0, i);
    }
    if s.len() > 0 && s[0] == '/' {
        if forall|i: int| 0 <= i < path_spans(s).len() ==> path_fault(s, i) is None {
            lemma_first_path_fault(s, 0, path_spans(s).len() as int);
            if forall|i: int| 0 <= i < query_spans(s).len() ==> query_fault(s, i) is None {
                lemma_first_query_fault(s, 0, query_spans(s).len() as int);
            } else {
                lemma_some_query_fault(s, 0);
            }
        } else {
            lemma_some_path_fault(s, 0);
        }
    }
}

/// Where a path segment from `from` on has a fault, there is a first fault.
proof fn lemma_some_path_fault(s: Seq<char>, from: int)
    requires
        exists|i: int| from <= i < path_spans(s).len() && path_fault(s, i) is Some,
        0 <= from,
    ensures
        first_path_fault(s, from) is Some,
    decreases path_spans(s).len() - from,
{
    if path_fault(s, from) is None {
        lemma_some_path_fault(s, from + 1);
    }
}

/// Where a query name from `from` on has a fault, there is a first fault.
proof fn lemma_some_query_fault(s: Seq<char>, from: int)
    requires
        exists|i: int| from <= i < query_spans(s).len() && query_fault(s, i) is Some,
        0 <= from,
    ensures
        first_query_fault(s, from) is Some,
    decreases query_spans(s).len() - from,
{
    if query_fault(s, from) is None {
        lemma_some_query_fault(s, from + 1);
    }
}

/// Tells whether one of `segments` declares `name`.
fn declares(segments: &Vec<PathSegment>, name: &String) -> (r: bool)
    ensures
        r == exists|j: int|
            0 <= j < segments@.len() && (#[trigger] segments@[j])@.declared_text() == Some(name@),
{
    let mut j: usize = 0;
    while j < segments.len()
        invariant
            j <= segments@.len(),
            forall|k: int| 0 <= k < j ==> (#[trigger] segments@[k])@.declared_text() != Some(name@),
        decreases segments@.len() - j,
    {
        let found = match &segments[j] {
            PathSegment::Static(_) => false,
            PathSegment::Capture(earlier) => earlier.text == *name,
            PathSegment::Wildcard(earlier) => earlier.text == *name,
        };
        if found {
            return true;
        }
        j += 1;
    }
    false
}

/// Tells whether one of `names` is `name`.
fn holds(names: &Vec<Name>, name: &String) -> (r: bool)
    ensures
        r == exists|j: int| 0 <= j < names@.len() && (#[trigger] names@[j])@.text == name@,
{
    let mut j: usize = 0;
    while j < names.len()
        invariant
            j <= names@.len(),
            forall|k: int| 0 <= k < j ==> (#[trigger] names@[k])@.text != name@,
        decreases names@.len() - j,
    {
        if names[j].text == *name {
            return true;
        }
        j += 1;
    }
    false
}

/// The error of kind `kind` at `span` of `literal`.
fn error_at(kind: SyntaxErrorKind, span: Span, literal: &str) -> (e: SyntaxError)
    requires
        span.within(literal@.len()),
    ensures
        e@ == fault(kind, span, literal@),
{
    SyntaxError { kind, span, text: slice(literal, span) }
}

/// Reads the path segments of `literal`, whose characters are `chars` and
/// whose query begins at `mark`.
fn parse_path(literal: &str, chars: &Vec<char>, mark: usize) -> (r: Result<
    Vec<PathSegment>,
    SyntaxError,
>)
    requires
        chars@ == literal@,
        mark == query_mark(literal@),
        chars@.len() > 0,
        chars@[0] == '/',
    ensures
        match r {
            Ok(segments) => views(segments@) == segments_of(literal@) && first_path_fault(
                literal@,
                0,
            ) is None,
            Err(e) => first_path_fault(literal@, 0) == Some(e@),
        },
{
    let ghost s = literal@;
    proof {
        lemma_find(s, '?', 0, s.len() as int);
    }
    let spans: Vec<Span> = if mark <= 1 {
        Vec::new()
    } else {
        split_fields(chars, '/', 1, mark)
    };
    proof {
        if mark > 1 {
            lemma_fields(s, '/', 1, mark as int);
        }
    }
    let mut segments: Vec<PathSegment> = Vec::new();
    let mut i: usize = 0;
    while i < spans.len()
        invariant
            s == literal@,
            chars@ == s,
            spans@ == path_spans(s),
            mark <= s.len(),
            forall|k: int|
                0 <= k < spans@.len() ==> 1 <= (#[trigger] spans@[k]).start <= spans@[k].end
                    <= mark,
            i <= spans@.len(),
            segments@.len() == i,
            forall|j: int| 0 <= j < i ==> (#[trigger] segments@[j])@ == segment_at(s, j),
            forall|j: int| 0 <= j < i ==> path_fault(s, j) is None,
        decreases spans@.len() - i,
    {
        let span: Span = spans[i];
        proof {
            lemma_first_path_fault(s, 0, i as int);
        }
        if span.start == span.end {
            return Err(error_at(SyntaxErrorKind::EmptySegment, span, literal));
        }
        let c: char = chars[span.start];
        assert(span.of(s)[0] == c);
        if c == ':' || c == '*' {
            let inner = Span { start: span.start + 1, end: span.end };
            assert(inner == name_span(span));
            if inner.start == inner.end {
                return Err(error_at(SyntaxErrorKind::EmptyPathParameter, span, literal));
            }
            if !is_identifier_at(chars, inner.start, inner.end) {
                return Err(error_at(SyntaxErrorKind::InvalidPathParameter, inner, literal));
            }
            let text: String = slice(literal, inner);
            let repeated: bool = declares(&segments, &text);
            proof {
                let spec_repeated = exists|j: int|
                    0 <= j < i && (#[trigger] segment_at(s, j)).declared_text() == Some(text@);
                if repeated {
                    let j = choose|j: int|
                        0 <= j < segments@.len() && (#[trigger] segments@[j])@.declared_text()
                            == Some(text@);
                    assert(segment_at(s, j).declared_text() == Some(text@));
                }
                if spec_repeated {
                    let j = choose|j: int|
                        0 <= j < i && (#[trigger] segment_at(s, j)).declared_text() == Some(text@);
                    assert(segments@[j]@.declared_text() == Some(text@));
                }
                assert(repeated == spec_repeated);
            }
            if repeated {
                return Err(error_at(SyntaxErrorKind::DuplicatePathParameter, inner, literal));
            }
            if c == '*' && i + 1 < spans.len() {
                return Err(error_at(SyntaxErrorKind::MisplacedWildcard, inner, literal));
            }
            let name = Name { text, span: inner };
            if c == ':' {
                segments.push(PathSegment::Capture(name));
            } else {
                segments.push(PathSegment::Wildcard(name));
            }
        } else {
            segments.push(PathSegment::Static(slice(literal, span)));
        }
        i += 1;
    }
    proof {
        lemma_first_path_fault(s, 0, i as int);
        assert(views(segments@) =~= segments_of(s));
    }
    Ok(segments)
}

/// Reads the query names of `literal`, whose characters are `chars` and
/// whose query begins at `mark`.
fn parse_query(literal: &str, chars: &Vec<char>, mark: usize) -> (r: Result<
    Vec<Name>,
    SyntaxError,
>)
    requires
        chars@ == literal@,
        mark == query_mark(literal@),
    ensures
        match r {
            Ok(names) => views(names@) == query_names_of(literal@) && first_query_fault(
                literal@,
                0,
            ) is None,
            Err(e) => first_query_fault(literal@, 0) == Some(e@),
        },
{
    let ghost s = literal@;
    let n: usize = chars.len();
    proof {
        lemma_find(s, '?', 0, s.len() as int);
    }
    let spans: Vec<Span> = if mark >= n {
        Vec::new()
    } else {
        split_fields(chars, '&', mark + 1, n)
    };
    proof {
        if mark < n {
            lemma_fields(s, '&', mark + 1, n as int);
        }
    }
    let mut names: Vec<Name> = Vec::new();
    let mut i: usize = 0;
    while i < spans.len()
        invariant
            s == literal@,
            chars@ == s,
            n == s.len(),
            mark == query_mark(s),
            mark <= n,
            spans@ == query_spans(s),
            forall|k: int|
                0 <= k < spans@.len() ==> (#[trigger] spans@[k]).start <= spans@[k].end <= n,
            i <= spans@.len(),
            names@.len() == i,
            forall|j: int| 0 <= j < i ==> (#[trigger] names@[j])@ == query_name_at(s, j),
            forall|j: int| 0 <= j < i ==> query_fault(s, j) is None,
        decreases spans@.len() - i,
    {
        let span: Span = spans[i];
        proof {
            lemma_first_query_fault(s, 0, i as int);
        }
        if span.start == span.end {
            if spans.len() == 1 {
                return Err(
                    error_at(SyntaxErrorKind::EmptyQuery, Span { start: mark, end: n }, literal),
                );
            }
            return Err(error_at(SyntaxErrorKind::EmptyQueryParameter, span, literal));
        }
        if !is_identifier_at(chars, span.start, span.end) {
            return Err(error_at(SyntaxErrorKind::InvalidQueryParameter, span, literal));
        }
        let text: String = slice(literal, span);
        let repeated: bool = holds(&names, &text);
        proof {
            let spec_repeated = exists|j: int|
                0 <= j < i && (#[trigger] query_name_at(s, j)).text == text@;
            if repeated {
                let j = choose|j: int| 0 <= j < names@.len() && (#[trigger] names@[j])@.text == text@;
                assert(query_name_at(s, j).text == text@);
            }
            if spec_repeated {
                let j = choose|j: int| 0 <= j < i && (#[trigger] query_name_at(s, j)).text == text@;
                assert(names@[j]@.text == text@);
            }
            assert(repeated == spec_repeated);
        }
        if repeated {
            return Err(error_at(SyntaxErrorKind::DuplicateQueryParameter, span, literal));
        }
        names.push(Name { text, span });
        i += 1;
    }
    proof {
        lemma_first_query_fault(s, 0, i as int);
        assert(views(names@) =~= query_names_of(s));
    }
    Ok(names)
}

/// Parses the text of a route: its path and, after a `?`, its query names.
/// It is read as a whole or not at all: the result is the segments and the
/// names in the order in which they stand, or the first fault.
pub fn parse_literal(literal: &str) -> (r: Result<(Vec<PathSegment>, Vec<Name>), SyntaxError>)
    ensures
        match r {
            Ok(parts) => {
                &&& literal_fault(literal@) is None
                &&& views(parts.0@) == segments_of(literal@)
                &&& views(parts.1@) == query_names_of(literal@)
            },
            Err(e) => literal_fault(literal@) == Some(e@),
        },
{
    let chars: Vec<char> = chars_of(literal);
    let n: usize = chars.len();
    let mark: usize = find_char(&chars, '?', 0, n);
    if n == 0 || chars[0] != '/' {
        return Err(error_at(SyntaxErrorKind::MissingSlash, Span { start: 0, end: mark }, literal));
    }
    let segments = match parse_path(literal, &chars, mark) {
        Ok(segments) => segments,
        Err(e) => {
            return Err(e);
        },
    };
    match parse_query(literal, &chars, mark) {
        Ok(names) => Ok((segments, names)),
        Err(e) => Err(e),
    }
}

impl SyntaxErrorView {
    /// The message of the error, for the author of the route.
    pub open spec fn message(self) -> Seq<char> {
        match self.kind {
            SyntaxErrorKind::UnknownMethod =>
                "expected one of (GET, POST, PUT, PATCH, DELETE, HEAD, OPTIONS, TRACE, CONNECT)"@,
            SyntaxErrorKind::MissingSlash => "expected path to start with `/`"@,
            SyntaxErrorKind::EmptySegment => "path segment is empty"@,
            SyntaxErrorKind::EmptyPathParameter => "path parameter name is empty"@,
            SyntaxErrorKind::InvalidPathParameter => "invalid path parameter name `"@ + self.text
                + "`"@,
            SyntaxErrorKind::DuplicatePathParameter => "duplicate path parameter `"@ + self.text
                + "`"@,
            SyntaxErrorKind::MisplacedWildcard => "wildcard path parameter `"@ + self.text
                + "` must be the last path segment"@,
            SyntaxErrorKind::EmptyQuery => "expected a query parameter after `?`"@,
            SyntaxErrorKind::EmptyQueryParameter => "query parameter name is empty"@,
            SyntaxErrorKind::InvalidQueryParameter => "invalid query parameter name `"@ + self.text
                + "`"@,
            SyntaxErrorKind::DuplicateQueryParameter => "duplicate query parameter `"@ + self.text
                + "`"@,
        }
    }
}

/// `before`, then `text`, then `after`.
fn quoted(before: &str, text: &String, after: &str) -> (r: String)
    ensures
        r@ == before@ + text@ + after@,
{
    let mut r: String = String::from_str(before);
    r.append(text.as_str());
    r.append(after);
    r
}

impl SyntaxError {
    /// The message of the error, for the author of the route.
    pub fn message(&self) -> (r: String)
        ensures
            r@ == self@.message(),
    {
        match self.kind {
            SyntaxErrorKind::UnknownMethod => String::from_str(
                "expected one of (GET, POST, PUT, PATCH, DELETE, HEAD, OPTIONS, TRACE, CONNECT)",
            ),
            SyntaxErrorKind::MissingSlash => String::from_str("expected path to start with `/`"),
            SyntaxErrorKind::EmptySegment => String::from_str("path segment is empty"),
            SyntaxErrorKind::EmptyPathParameter => String::from_str("path parameter name is empty"),
            SyntaxErrorKind::InvalidPathParameter => quoted(
                "invalid path parameter name `",
                &self.text,
                "`",
            ),
            SyntaxErrorKind::DuplicatePathParameter => quoted(
                "duplicate path parameter `",
                &self.text,
                "`",
            ),
            SyntaxErrorKind::MisplacedWildcard => quoted(
                "wildcard path parameter `",
                &self.text,
                "` must be the last path segment",
            ),
            SyntaxErrorKind::EmptyQuery => String::from_str("expected a query parameter after `?`"),
            SyntaxErrorKind::EmptyQueryParameter => String::from_str(
                "query parameter name is empty",
            ),
            SyntaxErrorKind::InvalidQueryParameter => quoted(
                "invalid query parameter name `",
                &self.text,
                "`",
            ),
            SyntaxErrorKind::DuplicateQueryParameter => quoted(
                "duplicate query parameter `",
                &self.text,
                "`",
            ),
        }
    }
}

/// A parsed route: the method, the path segments and the query names in the
/// order in which they stand, the state type where the route names one, and
/// the text that was parsed.
#[derive(Debug, PartialEq, Eq)]
pub struct Route {
    pub method: Method,
    pub path_params: Vec<PathSegment>,
    pub query_params: Vec<Name>,
    pub state: Option<TypeExpr>,
    pub route_lit: String,
}

/// What a `Route` stands for.
pub struct RouteView {
    pub method: Method,
    pub segments: Seq<SegmentView>,
    pub query: Seq<NameView>,
    pub state: Option<TypeModel>,
    pub literal: Seq<char>,
}

impl View for Route {
    type V = RouteView;

    open spec fn view(&self) -> RouteView {
        RouteView {
            method: self.method,
            segments: views(self.path_params@),
            query: views(self.query_params@),
            state: view_of(self.state),
            literal: self.route_lit@,
        }
    }
}

/// The route that the method keyword `keyword`, the text `s` and the state
/// type `state` declare, or what is wrong with them: an unknown keyword
/// first, then the first fault of the text.
pub open spec fn parse_route(keyword: Seq<char>, s: Seq<char>, state: Option<TypeModel>) -> Result<
    RouteView,
    SyntaxErrorView,
> {
    match Method::of_keyword(keyword) {
        None => Err(
            SyntaxErrorView {
                kind: SyntaxErrorKind::UnknownMethod,
                span: Span { start: 0, end: keyword.len() as usize },
                text: keyword,
            },
        ),
        Some(method) => match literal_fault(s) {
            Some(e) => Err(e),
            None => Ok(
                RouteView {
                    method,
                    segments: segments_of(s),
                    query: query_names_of(s),
                    state,
                    literal: s,
                },
            ),
        },
    }
}

impl Route {
    /// Parses a route from its three parts: the method keyword, the text of
    /// path and query, and the state type where one is given.
    pub fn parse(method: &str, literal: &str, state: Option<TypeExpr>) -> (r: Result<
        Route,
        SyntaxError,
    >)
        ensures
            match r {
                Ok(route) => parse_route(method@, literal@, view_of(state)) == Ok::<
                    RouteView,
                    SyntaxErrorView,
                >(route@),
                Err(e) => parse_route(method@, literal@, view_of(state)) == Err::<
                    RouteView,
                    SyntaxErrorView,
                >(e@),
            },
    {
        let decoded = match Method::from_keyword(method) {
            Some(decoded) => decoded,
            None => {
                return Err(
                    SyntaxError {
                        kind: SyntaxErrorKind::UnknownMethod,
                        span: Span { start: 0, end: method.unicode_len() },
                        text: String::from_str(method),
                    },
                );
            },
        };
        match parse_literal(literal) {
            Ok(parts) => {
                let (path_params, query_params) = parts;
                Ok(
                    Route {
                        method: decoded,
                        path_params,
                        query_params,
                        state,
                        route_lit: String::from_str(literal),
                    },
                )
            },
            Err(e) => Err(e),
        }
    }
}

} // verus!
