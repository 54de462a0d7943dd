//! A plain-value model of the parts of an `impl` block that the actor derivation reads.
//!
//! Every piece of syntax that can be pointed at by a diagnostic, or that has to be written
//! back into the generated code, carries a `node`: the position under which the front end
//! keeps the syntax as written. The derivation never looks inside a node; it only copies it.
use vstd::prelude::*;

verus! {

/// A lifetime such as `'static` or `'a`; `ident` is written without the apostrophe.
#[derive(Debug, PartialEq, Eq)]
pub struct LifetimeModel {
    pub node: usize,
    pub ident: String,
}

/// The arguments that follow one segment of a path.
#[derive(Debug, PartialEq, Eq)]
pub enum PathArgumentsModel {
    /// No arguments, as in `Vec`.
    Empty,
    /// Angle-bracketed arguments, as in `Vec<T>`.
    AngleBracketed(Vec<GenericArgumentModel>),
    /// Parenthesized arguments, as in `Fn(A) -> B`.
    Parenthesized,
}

/// One argument between angle brackets.
#[derive(Debug, PartialEq, Eq)]
pub struct GenericArgumentModel {
    pub node: usize,
    pub kind: GenericArgumentKind,
}

/// What kind of generic argument is written.
#[derive(Debug, PartialEq, Eq)]
pub enum GenericArgumentKind {
    Lifetime,
    Type(TypeModel),
    Binding,
    Constraint,
    Const,
}

/// One segment of a path: an identifier with its arguments.
#[derive(Debug, PartialEq, Eq)]
pub struct PathSegmentModel {
    pub ident: String,
    pub arguments: PathArgumentsModel,
}

/// A path such as `::std::vec::Vec<T>`.
#[derive(Debug, PartialEq, Eq)]
pub struct PathModel {
    pub leading_colon: bool,
    pub segments: Vec<PathSegmentModel>,
}

/// A path used as a type.
#[derive(Debug, PartialEq, Eq)]
pub struct TypePathModel {
    pub node: usize,
    pub path: PathModel,
}

/// A type, one variant for each form of type that Rust syntax has.
#[derive(Debug, PartialEq, Eq)]
pub enum TypeModel {
    Array { node: usize, elem: Box<TypeModel> },
    BareFn {
        node: usize,
        lifetimes: Vec<LifetimeModel>,
        inputs: Vec<TypeModel>,
        output: Option<Box<TypeModel>>,
    },
    Group { node: usize, elem: Box<TypeModel> },
    ImplTrait { node: usize },
    Infer { node: usize },
    Macro { node: usize },
    Never { node: usize },
    Paren { node: usize, elem: Box<TypeModel> },
    Path(TypePathModel),
    Ptr { node: usize, elem: Box<TypeModel> },
    Reference { node: usize, lifetime: Option<LifetimeModel>, elem: Box<TypeModel> },
    Slice { node: usize },
    TraitObject { node: usize },
    Tuple { node: usize, elems: Vec<TypeModel> },
    Verbatim { node: usize },
}

/// A type parameter of the `impl`; `bounds` holds the nodes of its bounds, in order.
#[derive(Debug, PartialEq, Eq)]
pub struct TypeParamModel {
    pub node: usize,
    pub ident: String,
    pub bounds: Vec<usize>,
}

/// A generic parameter of the `impl`.
#[derive(Debug, PartialEq, Eq)]
pub enum GenericParamModel {
    Type(TypeParamModel),
    Lifetime { node: usize },
    Const { node: usize },
}

/// A predicate of a `where` clause. For `T: Bound` predicates, `bounded_path` holds the
/// identifiers of the bounded type's path segments when that type is a path.
#[derive(Debug, PartialEq, Eq)]
pub enum WherePredicateModel {
    Type { node: usize, bounded_path: Option<Vec<String>> },
    Lifetime { node: usize },
    Eq { node: usize },
}

/// The generics of an `impl` block: its parameters and its `where` clause, if written.
#[derive(Debug, PartialEq, Eq)]
pub struct GenericsModel {
    pub params: Vec<GenericParamModel>,
    pub where_clause: Option<Vec<WherePredicateModel>>,
}

/// An outer attribute, such as `#[puppet]`.
#[derive(Debug, PartialEq, Eq)]
pub struct AttributeModel {
    pub node: usize,
    pub path: PathModel,
}

/// One input of a method signature.
#[derive(Debug, PartialEq, Eq)]
pub enum FnArgModel {
    /// `self`, `mut self`, `&self` or `&mut self`; `reference` tells whether it is borrowed.
    Receiver { node: usize, reference: bool },
    /// `pattern: Type`; `pat_ident` is the bound name when the pattern is an identifier.
    Typed { node: usize, pat_ident: Option<String>, ty: TypeModel },
}

/// A method of the `impl` block.
#[derive(Debug, PartialEq, Eq)]
pub struct MethodModel {
    pub node: usize,
    /// The node of the whole signature.
    pub sig_node: usize,
    /// The node of the return type (`-> T`, or nothing).
    pub output_node: usize,
    pub attrs: Vec<AttributeModel>,
    pub is_async: bool,
    pub ident: String,
    pub inputs: Vec<FnArgModel>,
    /// Whether a return type is written.
    pub returns_value: bool,
}

/// An item of the `impl` block.
#[derive(Debug, PartialEq, Eq)]
pub enum ImplItemModel {
    Method(MethodModel),
    Other { node: usize },
}

/// The `impl` block that the actor is derived from.
#[derive(Debug, PartialEq, Eq)]
pub struct ImplModel {
    pub node: usize,
    pub generics: GenericsModel,
    pub self_ty: TypeModel,
    pub items: Vec<ImplItemModel>,
}

/// The number of type nodes in a type, the type itself included.
pub open spec fn type_size(t: TypeModel) -> nat
    decreases t,
{
    match t {
        TypeModel::Array { elem, .. } => 1 + type_size(*elem),
        TypeModel::BareFn { inputs, output, .. } => 1 + types_size(inputs@) + match output {
            Some(o) => type_size(*o),
            None => 0,
        },
        TypeModel::Group { elem, .. } => 1 + type_size(*elem),
        TypeModel::Paren { elem, .. } => 1 + type_size(*elem),
        TypeModel::Path(p) => 1 + segments_size(p.path.segments@),
        TypeModel::Ptr { elem, .. } => 1 + type_size(*elem),
        TypeModel::Reference { elem, .. } => 1 + type_size(*elem),
        TypeModel::Tuple { elems, .. } => 1 + types_size(elems@),
        _ => 1,
    }
}

/// The number of type nodes in a sequence of types.
pub open spec fn types_size(s: Seq<TypeModel>) -> nat
    decreases s,
{
    if s.len() == 0 {
        0
    } else {
        types_size(s.drop_last()) + type_size(s.last())
    }
}

/// The number of type nodes in the angle-bracketed arguments of path segments.
pub open spec fn segments_size(s: Seq<PathSegmentModel>) -> nat
    decreases s,
{
    if s.len() == 0 {
        0
    } else {
        segments_size(s.drop_last()) + match s.last().arguments {
            PathArgumentsModel::AngleBracketed(args) => arguments_size(args@),
            _ => 0,
        }
    }
}

/// The number of type nodes in a sequence of generic arguments.
pub open spec fn arguments_size(s: Seq<GenericArgumentModel>) -> nat
    decreases s,
{
    if s.len() == 0 {
        0
    } else {
        arguments_size(s.drop_last()) + match s.last().kind {
            GenericArgumentKind::Type(t) => type_size(t),
            _ => 0,
        }
    }
}

/// The type arguments written between angle brackets in a sequence of generic arguments.
pub open spec fn argument_types(s: Seq<GenericArgumentModel>) -> Seq<TypeModel>
    decreases s.len(),
{
    if s.len() == 0 {
        Seq::empty()
    } else {
        argument_types(s.drop_last()) + match s.last().kind {
            GenericArgumentKind::Type(t) => seq![t],
            _ => Seq::empty(),
        }
    }
}

/// The type arguments of one path segment.
pub open spec fn segment_types(seg: PathSegmentModel) -> Seq<TypeModel> {
    match seg.arguments {
        PathArgumentsModel::AngleBracketed(args) => argument_types(args@),
        _ => Seq::empty(),
    }
}

/// The type arguments of all segments of a path, segment by segment.
pub open spec fn segments_types(s: Seq<PathSegmentModel>) -> Seq<TypeModel>
    decreases s.len(),
{
    if s.len() == 0 {
        Seq::empty()
    } else {
        segments_types(s.drop_last()) + segment_types(s.last())
    }
}

/// The identifiers of a sequence of path segments.
pub open spec fn segment_idents(s: Seq<PathSegmentModel>) -> Seq<Seq<char>> {
    Seq::new(s.len(), |i: int| s[i].ident@)
}

/// The size of a sequence of types is additive.
pub proof fn lemma_types_size_append(a: Seq<TypeModel>, b: Seq<TypeModel>)
    ensures
        types_size(a + b) == types_size(a) + types_size(b),
    decreases b.len(),
{
    if b.len() == 0 {
        assert(a + b =~= a);
    } else {
        lemma_types_size_append(a, b.drop_last());
        assert((a + b).drop_last() =~= a + b.drop_last());
    }
}

/// The type arguments of generic arguments account for all of their type nodes.
pub proof fn lemma_argument_types_size(s: Seq<GenericArgumentModel>)
    ensures
        types_size(argument_types(s)) == arguments_size(s),
    decreases s.len(),
{
    if s.len() > 0 {
        lemma_argument_types_size(s.drop_last());
        let last = match s.last().kind {
            GenericArgumentKind::Type(t) => seq![t],
            _ => Seq::<TypeModel>::empty(),
        };
        lemma_types_size_append(argument_types(s.drop_last()), last);
        if let GenericArgumentKind::Type(t) = s.last().kind {
            assert(last.drop_last() =~= Seq::<TypeModel>::empty());
            assert(last.last() == t);
            assert(types_size(Seq::<TypeModel>::empty()) == 0);
            assert(types_size(last) == type_size(t));
        } else {
            assert(types_size(last) == 0);
        }
    }
}

/// The type arguments of path segments account for all of their type nodes.
pub proof fn lemma_segments_types_size(s: Seq<PathSegmentModel>)
    ensures
        types_size(segments_types(s)) == segments_size(s),
    decreases s.len(),
{
    if s.len() > 0 {
        lemma_segments_types_size(s.drop_last());
        lemma_types_size_append(segments_types(s.drop_last()), segment_types(s.last()));
        if let PathArgumentsModel::AngleBracketed(args) = s.last().arguments {
            lemma_argument_types_size(args@);
        }
    }
}

} // verus!

verus! {

/// A type parameter as plain values.
pub struct TypeParamView {
    pub node: usize,
    pub ident: Seq<char>,
    pub bounds: Seq<usize>,
}

impl View for TypeParamModel {
    type V = TypeParamView;

    open spec fn view(&self) -> TypeParamView {
        TypeParamView { node: self.node, ident: self.ident@, bounds: self.bounds@ }
    }
}

/// A `where` predicate as plain values.
pub enum WherePredicateView {
    Type { node: usize, bounded_path: Option<Seq<Seq<char>>> },
    Lifetime { node: usize },
    Eq { node: usize },
}

impl View for WherePredicateModel {
    type V = WherePredicateView;

    open spec fn view(&self) -> WherePredicateView {
        match self {
            WherePredicateModel::Type { node, bounded_path } => WherePredicateView::Type {
                node: *node,
                bounded_path: match bounded_path {
                    Some(p) => Some(p.deep_view()),
                    None => None,
                },
            },
            WherePredicateModel::Lifetime { node } => WherePredicateView::Lifetime { node: *node },
            WherePredicateModel::Eq { node } => WherePredicateView::Eq { node: *node },
        }
    }
}

impl TypeParamModel {
    /// A copy of this type parameter.
    pub fn copy(&self) -> (p: TypeParamModel)
        ensures
            p@ == self@,
    {
        TypeParamModel { node: self.node, ident: self.ident.clone(), bounds: self.bounds.clone() }
    }
}

impl WherePredicateModel {
    /// A copy of this predicate.
    pub fn copy(&self) -> (p: WherePredicateModel)
        ensures
            p@ == self@,
    {
        match self {
            WherePredicateModel::Type { node, bounded_path } => {
                let bounded_path = match bounded_path {
                    Some(p) => {
                        let c = p.clone();
                        proof {
                            assert(c.deep_view() =~= p.deep_view());
                        }
                        Some(c)
                    },
                    None => None,
                };
                WherePredicateModel::Type { node: *node, bounded_path }
            },
            WherePredicateModel::Lifetime { node } => WherePredicateModel::Lifetime { node: *node },
            WherePredicateModel::Eq { node } => WherePredicateModel::Eq { node: *node },
        }
    }
}

} // verus!

verus! {

/// A generic parameter as plain values.
pub enum GenericParamView {
    Type(TypeParamView),
    Lifetime { node: usize },
    Const { node: usize },
}

impl View for GenericParamModel {
    type V = GenericParamView;

    open spec fn view(&self) -> GenericParamView {
        match self {
            GenericParamModel::Type(p) => GenericParamView::Type(p@),
            GenericParamModel::Lifetime { node } => GenericParamView::Lifetime { node: *node },
            GenericParamModel::Const { node } => GenericParamView::Const { node: *node },
        }
    }
}

/// The views of a sequence of generic parameters.
pub open spec fn generic_param_views(s: Seq<GenericParamModel>) -> Seq<GenericParamView> {
    Seq::new(s.len(), |i: int| s[i]@)
}

} // verus!
