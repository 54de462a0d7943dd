//! Generics handling: moving bounds into the `where` clause, tracking which type parameters
//! the messages use, and extracting the message type of each handler.
use crate::errors::{
    error_at, error_view, msg_impl_trait, msg_inferred, msg_macro, msg_missing_message,
    msg_missing_message_or_reply, msg_missing_segment, msg_lifetime_generics, msg_const_generics, msg_non_static_lifetime, msg_slice,
    msg_too_many_arguments, msg_unsupported_argument, msg_unsupported_generic, ErrorView,
    MacroError,
};
use crate::handler::{expected_count, HandlerKind};
use crate::utils::{format_inputs, get_segment, input_names, join};
use crate::model::{
    argument_types, lemma_segments_types_size, lemma_types_size_append, segment_idents,
    segment_types, segments_types, type_size, types_size, FnArgModel, GenericArgumentKind,
    GenericArgumentModel, GenericParamModel, GenericParamView, GenericsModel, LifetimeModel,
    MethodModel, generic_param_views, PathSegmentModel,
    PathArgumentsModel, TypeModel, TypeParamModel, TypeParamView, TypePathModel,
    WherePredicateModel, WherePredicateView,
};
use crate::queue::{new_type_queue, pop_type, push_type, queued_types};
use vstd::prelude::*;
use vstd::string::*;

verus! {

// ---------------------------------------------------------------------------------------------
// Processed generics
// ---------------------------------------------------------------------------------------------

/// One predicate of the processed `where` clause: either written in the `impl`'s own
/// `where` clause, or moved there from the bounds of a type parameter.
#[derive(Debug, PartialEq, Eq)]
pub enum WhereEntry {
    Written(WherePredicateModel),
    Moved(TypeParamModel),
}

/// A processed `where` predicate as plain values.
pub enum WhereEntryView {
    Written(WherePredicateView),
    Moved(TypeParamView),
}

impl View for WhereEntry {
    type V = WhereEntryView;

    open spec fn view(&self) -> WhereEntryView {
        match self {
            WhereEntry::Written(p) => WhereEntryView::Written(p@),
            WhereEntry::Moved(p) => WhereEntryView::Moved(p@),
        }
    }
}

impl WhereEntry {
    /// A copy of this entry.
    pub fn copy(&self) -> (e: WhereEntry)
        ensures
            e@ == self@,
    {
        match self {
            WhereEntry::Written(p) => WhereEntry::Written(p.copy()),
            WhereEntry::Moved(p) => WhereEntry::Moved(p.copy()),
        }
    }
}

/// The views of a sequence of entries.
pub open spec fn entry_views(s: Seq<WhereEntry>) -> Seq<WhereEntryView> {
    Seq::new(s.len(), |i: int| s[i]@)
}

/// The views of a sequence of type parameters.
pub open spec fn param_views(s: Seq<TypeParamModel>) -> Seq<TypeParamView> {
    Seq::new(s.len(), |i: int| s[i]@)
}

/// Views of a sequence with one more entry.
pub proof fn lemma_entry_views_push(s: Seq<WhereEntry>, x: WhereEntry)
    ensures
        entry_views(s.push(x)) == entry_views(s).push(x@),
{
    assert(entry_views(s.push(x)) =~= entry_views(s).push(x@));
}

/// Views of a sequence of type parameters with one more parameter.
pub proof fn lemma_param_views_push(s: Seq<TypeParamModel>, x: TypeParamModel)
    ensures
        param_views(s.push(x)) == param_views(s).push(x@),
{
    assert(param_views(s.push(x)) =~= param_views(s).push(x@));
}

/// The identifier that a `where` predicate constrains, when it constrains a type whose
/// path has a first segment.
pub open spec fn entry_subject(e: WhereEntryView) -> Option<Seq<char>> {
    match e {
        WhereEntryView::Written(WherePredicateView::Type { bounded_path: Some(p), .. }) => {
            if p.len() > 0 {
                Some(p[0])
            } else {
                None
            }
        },
        WhereEntryView::Moved(p) => Some(p.ident),
        _ => None,
    }
}

// ---------------------------------------------------------------------------------------------
// The generic builder
// ---------------------------------------------------------------------------------------------

/// Tracks which type parameters of the `impl` the messages use (the built ones, which the
/// message enum takes) and which are only part of the `impl` (the remaining ones).
pub struct GenericBuilder {
    types_lookup: Vec<TypeParamModel>,
    built: Vec<bool>,
    parent_where: Vec<WhereEntry>,
}

/// A generic builder as plain values: the type parameters of the `impl`, whether each is
/// used by a message, and the processed `where` clause.
pub struct GenericBuilderView {
    pub lookup: Seq<TypeParamView>,
    pub used: Seq<bool>,
    pub parent_where: Seq<WhereEntryView>,
}

impl View for GenericBuilder {
    type V = GenericBuilderView;

    closed spec fn view(&self) -> GenericBuilderView {
        GenericBuilderView {
            lookup: param_views(self.types_lookup@),
            used: self.built@,
            parent_where: entry_views(self.parent_where@),
        }
    }
}

impl GenericBuilderView {
    /// Each type parameter has a flag, and no two type parameters share an identifier.
    pub open spec fn wf(self) -> bool {
        &&& self.used.len() == self.lookup.len()
        &&& forall|i: int, j: int|
            0 <= i < j < self.lookup.len() ==> self.lookup[i].ident != self.lookup[j].ident
    }

    /// The builder after the identifiers in `idents` have been seen in message types.
    pub open spec fn insert_idents(self, idents: Seq<Seq<char>>) -> GenericBuilderView {
        GenericBuilderView {
            lookup: self.lookup,
            used: Seq::new(
                self.used.len(),
                |k: int| self.used[k] || idents.contains(self.lookup[k].ident),
            ),
            parent_where: self.parent_where,
        }
    }

    /// Whether `ident` names a type parameter that a message uses.
    pub open spec fn is_built(self, ident: Seq<char>) -> bool {
        exists|k: int| 0 <= k < self.lookup.len() && self.used[k] && self.lookup[k].ident == ident
    }

    /// Whether `ident` names a type parameter that no message uses.
    pub open spec fn is_remaining(self, ident: Seq<char>) -> bool {
        exists|k: int|
            0 <= k < self.lookup.len() && !self.used[k] && self.lookup[k].ident == ident
    }
}

/// Seeing two runs of identifiers one after the other is seeing them together.
pub proof fn lemma_insert_idents_append(
    b: GenericBuilderView,
    x: Seq<Seq<char>>,
    y: Seq<Seq<char>>,
)
    ensures
        b.insert_idents(x).insert_idents(y) == b.insert_idents(x + y),
{
    let l = b.insert_idents(x).insert_idents(y);
    let r = b.insert_idents(x + y);
    assert forall|k: int| 0 <= k < b.used.len() implies l.used[k] == r.used[k] by {
        let id = b.lookup[k].ident;
        if x.contains(id) {
            let j = choose|j: int| 0 <= j < x.len() && x[j] == id;
            assert((x + y)[j] == id);
        }
        if y.contains(id) {
            let j = choose|j: int| 0 <= j < y.len() && y[j] == id;
            assert((x + y)[x.len() + j] == id);
        }
        if (x + y).contains(id) {
            let j = choose|j: int| 0 <= j < (x + y).len() && (x + y)[j] == id;
            if j < x.len() {
                assert(x[j] == id);
            } else {
                assert(y[j - x.len()] == id);
            }
        }
    }
    assert(l.used =~= r.used);
}

/// Seeing no identifier changes nothing.
pub proof fn lemma_insert_no_idents(b: GenericBuilderView)
    ensures
        b.insert_idents(Seq::empty()) == b,
{
    assert(b.insert_idents(Seq::empty()).used =~= b.used);
}

impl GenericBuilder {
    /// Records that `i` occurs in a message type: when `i` names a type parameter of the
    /// `impl`, that parameter is used by the messages from now on.
    pub fn check_and_insert_type(&mut self, i: &String)
        requires
            old(self)@.wf(),
        ensures
            final(self)@ == old(self)@.insert_idents(seq![i@]),
    {
        let ghost old_view = self@;
        let n = self.types_lookup.len();
        let mut k: usize = 0;
        while k < n
            invariant
                n == self.types_lookup.len(),
                n == self.built.len(),
                old_view == old(self)@,
                0 <= k <= n,
                self.types_lookup == old(self).types_lookup,
                self.parent_where == old(self).parent_where,
                forall|j: int|
                    0 <= j < n ==> #[trigger] self.built@[j] == if j < k {
                        old_view.used[j] || old_view.lookup[j].ident == i@
                    } else {
                        old_view.used[j]
                    },
            decreases n - k,
        {
            proof {
                assert(old_view.lookup == param_views(old(self).types_lookup@));
                assert(old_view.lookup[k as int] == old(self).types_lookup@[k as int]@);
                assert(old_view.lookup[k as int].ident == self.types_lookup@[k as int].ident@);
            }
            if self.types_lookup[k].ident == *i {
                self.built.set(k, true);
            }
            k = k + 1;
        }
        proof {
            let target = old_view.insert_idents(seq![i@]);
            assert forall|j: int| 0 <= j < n implies self.built@[j] == target.used[j] by {
                if seq![i@].contains(old_view.lookup[j].ident) {
                    assert(seq![i@][0] == i@);
                } else {
                    assert(seq![i@][0] == i@);
                }
            }
            assert(self@.used =~= target.used);
        }
    }
}

// ---------------------------------------------------------------------------------------------
// Walking through message types
// ---------------------------------------------------------------------------------------------

/// Whether a lifetime is `'static`.
pub open spec fn is_static(lt: LifetimeModel) -> bool {
    lt.ident@ == "static"@
}

/// The first lifetime that is not `'static`, if any.
pub open spec fn first_non_static(s: Seq<LifetimeModel>) -> Option<LifetimeModel>
    decreases s.len(),
{
    if s.len() == 0 {
        None
    } else {
        match first_non_static(s.drop_last()) {
            Some(lt) => Some(lt),
            None => if is_static(s.last()) {
                None
            } else {
                Some(s.last())
            },
        }
    }
}

/// What the walk does with one type: fail, or record identifiers and queue inner types.
pub enum WalkStep {
    Fail(ErrorView),
    Visit(Seq<Seq<char>>, Seq<TypeModel>),
}

/// The step that the walk takes on `t`.
pub open spec fn walk_step(t: TypeModel) -> WalkStep {
    match t {
        TypeModel::Array { elem, .. } => WalkStep::Visit(Seq::empty(), seq![*elem]),
        TypeModel::BareFn { lifetimes, inputs, output, .. } => match first_non_static(
            lifetimes@,
        ) {
            Some(lt) => WalkStep::Fail(error_view(lt.node, msg_non_static_lifetime())),
            None => WalkStep::Visit(
                Seq::empty(),
                inputs@ + match output {
                    Some(o) => seq![*o],
                    None => Seq::empty(),
                },
            ),
        },
        TypeModel::Group { elem, .. } => WalkStep::Visit(Seq::empty(), seq![*elem]),
        TypeModel::Never { .. } => WalkStep::Visit(Seq::empty(), Seq::empty()),
        TypeModel::Paren { elem, .. } => WalkStep::Visit(Seq::empty(), seq![*elem]),
        TypeModel::Path(p) => WalkStep::Visit(
            segment_idents(p.path.segments@),
            segments_types(p.path.segments@),
        ),
        TypeModel::Ptr { elem, .. } => WalkStep::Visit(Seq::empty(), seq![*elem]),
        TypeModel::Reference { lifetime, elem, .. } => match lifetime {
            Some(lt) => if is_static(lt) {
                WalkStep::Visit(Seq::empty(), seq![*elem])
            } else {
                WalkStep::Fail(error_view(lt.node, msg_non_static_lifetime()))
            },
            None => WalkStep::Visit(Seq::empty(), seq![*elem]),
        },
        TypeModel::TraitObject { .. } => WalkStep::Visit(Seq::empty(), Seq::empty()),
        TypeModel::Tuple { elems, .. } => WalkStep::Visit(Seq::empty(), elems@),
        TypeModel::Verbatim { .. } => WalkStep::Visit(Seq::empty(), Seq::empty()),
        TypeModel::ImplTrait { node } => WalkStep::Fail(error_view(node, msg_impl_trait())),
        TypeModel::Infer { node } => WalkStep::Fail(error_view(node, msg_inferred())),
        TypeModel::Macro { node } => WalkStep::Fail(error_view(node, msg_macro())),
        TypeModel::Slice { node } => WalkStep::Fail(error_view(node, msg_slice())),
    }
}

/// A single type has the size of its own node.
pub proof fn lemma_single_size(t: TypeModel)
    ensures
        types_size(seq![t]) == type_size(t),
{
    assert(seq![t].drop_last() =~= Seq::<TypeModel>::empty());
    assert(seq![t].last() == t);
    assert(types_size(Seq::<TypeModel>::empty()) == 0);
}

/// The types that a step queues are one node smaller than the type they come from.
pub proof fn lemma_step_size(t: TypeModel)
    ensures
        walk_step(t) matches WalkStep::Visit(_, c) ==> types_size(c) + 1 == type_size(t),
{
    match t {
        TypeModel::Array { elem, .. } => lemma_single_size(*elem),
        TypeModel::Group { elem, .. } => lemma_single_size(*elem),
        TypeModel::Paren { elem, .. } => lemma_single_size(*elem),
        TypeModel::Ptr { elem, .. } => lemma_single_size(*elem),
        TypeModel::Reference { elem, .. } => lemma_single_size(*elem),
        TypeModel::BareFn { inputs, output, .. } => {
            match output {
                Some(o) => {
                    lemma_single_size(*o);
                    lemma_types_size_append(inputs@, seq![*o]);
                },
                None => {
                    assert(inputs@ + Seq::<TypeModel>::empty() =~= inputs@);
                },
            }
        },
        TypeModel::Path(p) => lemma_segments_types_size(p.path.segments@),
        TypeModel::Never { .. } => {},
        TypeModel::TraitObject { .. } => {},
        TypeModel::Verbatim { .. } => {},
        _ => {},
    }
}

/// A queue's size is its head's size plus the size of the rest.
pub proof fn lemma_queue_size(q: Seq<TypeModel>)
    requires
        q.len() > 0,
    ensures
        types_size(q) == type_size(q[0]) + types_size(q.drop_first()),
{
    lemma_types_size_append(seq![q[0]], q.drop_first());
    assert(seq![q[0]] + q.drop_first() =~= q);
    lemma_single_size(q[0]);
}

/// The walk over a queue of types, breadth first: the identifiers it sees, in order, and
/// the diagnostic it stops at, if any.
pub open spec fn walk_queue(q: Seq<TypeModel>) -> (Seq<Seq<char>>, Option<ErrorView>)
    decreases types_size(q),
{
    if q.len() == 0 {
        (Seq::empty(), None)
    } else {
        match walk_step(q[0]) {
            WalkStep::Fail(e) => (Seq::empty(), Some(e)),
            WalkStep::Visit(idents, children) => {
                proof {
                    lemma_queue_size(q);
                    lemma_step_size(q[0]);
                    lemma_types_size_append(q.drop_first(), children);
                }
                let rest = walk_queue(q.drop_first() + children);
                (idents + rest.0, rest.1)
            },
        }
    }
}

/// A walk whose head type fails stops there, having seen nothing.
proof fn lemma_walk_fail(q: Seq<TypeModel>, e: ErrorView)
    requires
        q.len() > 0,
        walk_step(q[0]) == WalkStep::Fail(e),
    ensures
        walk_queue(q) == (Seq::<Seq<char>>::empty(), Some(e)),
{
}

/// The walk that starts from one type.
pub open spec fn walk_type(t: TypeModel) -> (Seq<Seq<char>>, Option<ErrorView>) {
    walk_queue(seq![t])
}

/// Checks that a lifetime, if present, is `'static`.
pub fn check_lifetime_static(lifetime: Option<&LifetimeModel>) -> (r: Result<(), MacroError>)
    ensures
        match lifetime {
            Some(lt) => if is_static(*lt) {
                r is Ok
            } else {
                r matches Err(e) && e@ == error_view(lt.node, msg_non_static_lifetime())
            },
            None => r is Ok,
        },
{
    if let Some(lt) = lifetime {
        let stat = String::from_str("static");
        if lt.ident != stat {
            return Err(
                error_at(
                    lt.node,
                    "Only `&'static` lifetimes are supported in generic message payloads.",
                ),
            );
        }
    }
    Ok(())
}

/// Walks through a type and everything inside it, breadth first, recording in the builder
/// the type parameters that it uses; stops at the first form of type that a message cannot
/// hold.
#[verifier::loop_isolation(false)]
pub fn walk_through_generics(builder: &mut GenericBuilder, ty: &TypeModel) -> (r: Result<
    (),
    MacroError,
>)
    requires
        old(builder)@.wf(),
    ensures
        final(builder)@ == old(builder)@.insert_idents(walk_type(*ty).0),
        match r {
            Ok(()) => walk_type(*ty).1 is None,
            Err(e) => walk_type(*ty).1 == Some(e@),
        },
{
    let ghost b0 = builder@;
    let ghost target = walk_type(*ty);
    let mut queue = new_type_queue();
    push_type(&mut queue, ty);
    proof {
        assert(queued_types(queue) =~= seq![*ty]);
        lemma_insert_no_idents(b0);
    }
    loop
        invariant
            builder@.wf(),
            builder@.lookup == b0.lookup,
            builder@.parent_where == b0.parent_where,
            b0.insert_idents(target.0) == builder@.insert_idents(
                walk_queue(queued_types(queue)).0,
            ),
            target.1 == walk_queue(queued_types(queue)).1,
        decreases types_size(queued_types(queue)),
    {
        let ghost q = queued_types(queue);
        let ghost b1 = builder@;
        let head = pop_type(&mut queue);
        match head {
            None => {
                proof {
                    assert(walk_queue(q).0 =~= Seq::<Seq<char>>::empty());
                    lemma_insert_no_idents(builder@);
                }
                return Ok(());
            },
            Some(t) => {
                proof {
                    lemma_queue_size(q);
                    lemma_step_size(*t);
                }
                match t {
                    TypeModel::Array { elem, .. } => {
                        push_type(&mut queue, &**elem);
                    },
                    TypeModel::BareFn { lifetimes, inputs, output, .. } => {
                        let mut i: usize = 0;
                        while i < lifetimes.len()
                            invariant
                                0 <= i <= lifetimes@.len(),
                                first_non_static(lifetimes@.take(i as int)) is None,
                                queued_types(queue) == q.drop_first(),
                                builder@ == b1,
                            decreases lifetimes@.len() - i,
                        {
                            let lt = &lifetimes[i];
                            let checked = check_lifetime_static(Some(lt));
                            proof {
                                assert(lifetimes@.take(i + 1).drop_last() =~= lifetimes@.take(
                                    i as int,
                                ));
                            }
                            if let Err(e) = checked {
                                proof {
                                    assert(lifetimes@.take(i + 1).last() == lifetimes@[i as int]);
                                    lemma_first_non_static_prefix(lifetimes@, i as int + 1);
                                    lemma_walk_fail(q, e@);
                                    lemma_insert_no_idents(builder@);
                                }
                                return Err(e);
                            }
                            i = i + 1;
                        }
                        proof {
                            assert(lifetimes@.take(lifetimes@.len() as int) =~= lifetimes@);
                        }
                        let mut j: usize = 0;
                        while j < inputs.len()
                            invariant
                                0 <= j <= inputs@.len(),
                                queued_types(queue) == q.drop_first() + inputs@.take(j as int),
                                builder@ == b1,
                            decreases inputs@.len() - j,
                        {
                            push_type(&mut queue, &inputs[j]);
                            proof {
                                assert(inputs@.take(j + 1) =~= inputs@.take(j as int).push(
                                    inputs@[j as int],
                                ));
                                assert(q.drop_first() + inputs@.take(j + 1) =~= (q.drop_first()
                                    + inputs@.take(j as int)).push(inputs@[j as int]));
                            }
                            j = j + 1;
                        }
                        proof {
                            assert(inputs@.take(inputs@.len() as int) =~= inputs@);
                        }
                        match output {
                            Some(o) => {
                                push_type(&mut queue, &**o);
                                proof {
                                    assert(q.drop_first() + (inputs@ + seq![**o]) =~= (
                                    q.drop_first() + inputs@).push(**o));
                                }
                            },
                            None => {
                                proof {
                                    assert(q.drop_first() + (inputs@ + Seq::<TypeModel>::empty())
                                        =~= q.drop_first() + inputs@);
                                }
                            },
                        }
                    },
                    TypeModel::Group { elem, .. } => {
                        push_type(&mut queue, &**elem);
                    },
                    TypeModel::Never { .. } => {},
                    TypeModel::Paren { elem, .. } => {
                        push_type(&mut queue, &**elem);
                    },
                    TypeModel::Path(p) => {
                        walk_path(builder, &mut queue, p);
                    },
                    TypeModel::Ptr { elem, .. } => {
                        push_type(&mut queue, &**elem);
                    },
                    TypeModel::Reference { lifetime, elem, .. } => {
                        let checked = check_lifetime_static(lifetime.as_ref());
                        if let Err(e) = checked {
                            proof {
                                lemma_walk_fail(q, e@);
                                lemma_insert_no_idents(builder@);
                            }
                            return Err(e);
                        }
                        push_type(&mut queue, &**elem);
                    },
                    TypeModel::TraitObject { .. } => {},
                    TypeModel::Tuple { elems, .. } => {
                        let mut j: usize = 0;
                        while j < elems.len()
                            invariant
                                0 <= j <= elems@.len(),
                                queued_types(queue) == q.drop_first() + elems@.take(j as int),
                                builder@ == b1,
                            decreases elems@.len() - j,
                        {
                            push_type(&mut queue, &elems[j]);
                            proof {
                                assert(elems@.take(j + 1) =~= elems@.take(j as int).push(
                                    elems@[j as int],
                                ));
                                assert(q.drop_first() + elems@.take(j + 1) =~= (q.drop_first()
                                    + elems@.take(j as int)).push(elems@[j as int]));
                            }
                            j = j + 1;
                        }
                        proof {
                            assert(elems@.take(elems@.len() as int) =~= elems@);
                        }
                    },
                    TypeModel::Verbatim { .. } => {},
                    TypeModel::ImplTrait { node } => {
                        let e = error_at(*node, "Message handlers do not support impl trait types.");
                        proof {
                            lemma_walk_fail(q, e@);
                            lemma_insert_no_idents(builder@);
                        }
                        return Err(e);
                    },
                    TypeModel::Infer { node } => {
                        let e = error_at(*node, "Message handlers do not support inferred types.");
                        proof {
                            lemma_walk_fail(q, e@);
                            lemma_insert_no_idents(builder@);
                        }
                        return Err(e);
                    },
                    TypeModel::Macro { node } => {
                        let e = error_at(
                                *node,
                                "Message handlers do not support macros in the arguments.",
                            );
                        proof {
                            lemma_walk_fail(q, e@);
                            lemma_insert_no_idents(builder@);
                        }
                        return Err(e);
                    },
                    TypeModel::Slice { node } => {
                        let e = error_at(
                                *node,
                                "Slices are not supported by puppet in message handlers.",
                            );
                        proof {
                            lemma_walk_fail(q, e@);
                            lemma_insert_no_idents(builder@);
                        }
                        return Err(e);
                    },
                }
                proof {
                    let (idents, children) = match walk_step(*t) {
                        WalkStep::Visit(i, c) => (i, c),
                        WalkStep::Fail(_) => (Seq::empty(), Seq::empty()),
                    };
                    assert(walk_step(*t) is Visit);
                    lemma_insert_no_idents(b1);
                    assert(queued_types(queue) == q.drop_first() + children);
                    assert(builder@ == b1.insert_idents(idents));
                    lemma_types_size_append(q.drop_first(), children);
                    lemma_insert_idents_append(b1, idents, walk_queue(queued_types(queue)).0);
                }
            },
        }
    }
}

/// When the first `n` lifetimes hold one that is not `'static`, the whole list does too.
proof fn lemma_first_non_static_prefix(s: Seq<LifetimeModel>, n: int)
    requires
        0 <= n <= s.len(),
        first_non_static(s.take(n)) is Some,
    ensures
        first_non_static(s) == first_non_static(s.take(n)),
    decreases s.len() - n,
{
    if n < s.len() {
        assert(s.take(n + 1).drop_last() =~= s.take(n));
        lemma_first_non_static_prefix(s, n + 1);
    } else {
        assert(s.take(n) =~= s);
    }
}

/// Walks the segments of a path: records each segment's identifier and queues the type
/// arguments between its angle brackets.
fn walk_path<'a>(
    builder: &mut GenericBuilder,
    queue: &mut crossbeam_queue::SegQueue<&'a TypeModel>,
    p: &'a TypePathModel,
)
    requires
        old(builder)@.wf(),
    ensures
        final(builder)@ == old(builder)@.insert_idents(segment_idents(p.path.segments@)),
        queued_types(*final(queue)) == queued_types(*old(queue)) + segments_types(
            p.path.segments@,
        ),
{
    let ghost b0 = builder@;
    let ghost q0 = queued_types(*queue);
    let segs = &p.path.segments;
    proof {
        assert(segment_idents(segs@.take(0)) =~= Seq::<Seq<char>>::empty());
        assert(q0 + segments_types(segs@.take(0)) =~= q0);
        lemma_insert_no_idents(b0);
    }
    let mut i: usize = 0;
    while i < segs.len()
        invariant
            0 <= i <= segs@.len(),
            builder@.wf(),
            builder@ == b0.insert_idents(segment_idents(segs@.take(i as int))),
            queued_types(*queue) == q0 + segments_types(segs@.take(i as int)),
        decreases segs@.len() - i,
    {
        let seg = &segs[i];
        let ghost b1 = builder@;
        builder.check_and_insert_type(&seg.ident);
        proof {
            lemma_insert_idents_append(
                b0,
                segment_idents(segs@.take(i as int)),
                seq![seg.ident@],
            );
            assert(segment_idents(segs@.take(i as int)) + seq![seg.ident@] =~= segment_idents(
                segs@.take(i + 1),
            ));
        }
        let ghost q1 = queued_types(*queue);
        match &seg.arguments {
            PathArgumentsModel::AngleBracketed(args) => {
                let mut j: usize = 0;
                while j < args.len()
                    invariant
                        0 <= j <= args@.len(),
                        queued_types(*queue) == q1 + argument_types(args@.take(j as int)),
                    decreases args@.len() - j,
                {
                    let arg = &args[j];
                    proof {
                        assert(args@.take(j + 1).drop_last() =~= args@.take(j as int));
                    }
                    match &arg.kind {
                        GenericArgumentKind::Type(ty) => {
                            push_type(queue, ty);
                            proof {
                                assert(q1 + argument_types(args@.take(j + 1)) =~= (q1
                                    + argument_types(args@.take(j as int))).push(*ty));
                            }
                        },
                        _ => {
                            proof {
                                assert(q1 + argument_types(args@.take(j + 1)) =~= q1
                                    + argument_types(args@.take(j as int)));
                            }
                        },
                    }
                    j = j + 1;
                }
                proof {
                    assert(args@.take(args@.len() as int) =~= args@);
                }
            },
            _ => {
                proof {
                    assert(q1 + segment_types(*seg) =~= q1);
                }
            },
        }
        proof {
            assert(segs@.take(i + 1).drop_last() =~= segs@.take(i as int));
            assert(segs@.take(i + 1).last() == *seg);
            assert(q0 + segments_types(segs@.take(i + 1)) =~= q0 + segments_types(
                segs@.take(i as int),
            ) + segment_types(*seg));
        }
        i = i + 1;
    }
    proof {
        assert(segs@.take(segs@.len() as int) =~= segs@);
    }
}

} // verus!

verus! {

// ---------------------------------------------------------------------------------------------
// Message extraction
// ---------------------------------------------------------------------------------------------

/// What checking one generic argument of a message type sees and where it stops.
pub open spec fn check_generic(arg: GenericArgumentModel) -> (Seq<Seq<char>>, Option<ErrorView>) {
    match arg.kind {
        GenericArgumentKind::Type(t) => walk_type(t),
        _ => (Seq::empty(), Some(error_view(arg.node, msg_unsupported_generic()))),
    }
}

/// Checking generic arguments in order, up to the first that fails.
pub open spec fn check_generics(args: Seq<GenericArgumentModel>) -> (
    Seq<Seq<char>>,
    Option<ErrorView>,
)
    decreases args.len(),
{
    if args.len() == 0 {
        (Seq::empty(), None)
    } else {
        let prev = check_generics(args.drop_last());
        if prev.1 is Some {
            prev
        } else {
            let c = check_generic(args.last());
            (prev.0 + c.0, c.1)
        }
    }
}

/// What reading the message identifier off a type path sees, and its result: the first
/// segment's identifier once the type arguments of that segment have been checked.
pub open spec fn message_ident_outcome(path: TypePathModel) -> (
    Seq<Seq<char>>,
    Result<Seq<char>, ErrorView>,
) {
    if path.path.segments@.len() == 0 {
        (Seq::empty(), Err(error_view(path.node, msg_missing_segment())))
    } else {
        let seg = path.path.segments@[0];
        let c = match seg.arguments {
            PathArgumentsModel::AngleBracketed(args) => check_generics(args@),
            _ => (Seq::empty(), None),
        };
        match c.1 {
            Some(e) => (c.0, Err(e)),
            None => (c.0, Ok(seg.ident@)),
        }
    }
}

/// Checks one generic argument of a message type: it must be a type, which is walked.
pub fn check_valid_generic(builder: &mut GenericBuilder, argument: &GenericArgumentModel) -> (r:
    Result<(), MacroError>)
    requires
        old(builder)@.wf(),
    ensures
        final(builder)@ == old(builder)@.insert_idents(check_generic(*argument).0),
        match r {
            Ok(()) => check_generic(*argument).1 is None,
            Err(e) => check_generic(*argument).1 == Some(e@),
        },
{
    match &argument.kind {
        GenericArgumentKind::Type(ty) => walk_through_generics(builder, ty),
        _ => {
            proof {
                lemma_insert_no_idents(builder@);
            }
            Err(error_at(argument.node, "Unsupported generics in message handler signature."))
        },
    }
}

/// The identifier of a message type: its path's first segment, whose type arguments are
/// walked into the builder.
#[verifier::loop_isolation(false)]
pub fn try_get_message_ident(builder: &mut GenericBuilder, path: &TypePathModel) -> (r: Result<
    String,
    MacroError,
>)
    requires
        old(builder)@.wf(),
    ensures
        final(builder)@ == old(builder)@.insert_idents(message_ident_outcome(*path).0),
        match r {
            Ok(id) => message_ident_outcome(*path).1 == Ok::<Seq<char>, ErrorView>(id@),
            Err(e) => message_ident_outcome(*path).1 == Err::<Seq<char>, ErrorView>(e@),
        },
{
    let ghost b0 = builder@;
    let segment = match get_segment(path) {
        Ok(s) => s,
        Err(e) => {
            proof {
                lemma_insert_no_idents(b0);
            }
            return Err(e);
        },
    };
    if let PathArgumentsModel::AngleBracketed(arguments) = &segment.arguments {
        let mut i: usize = 0;
        proof {
            assert(arguments@.take(0) =~= Seq::<GenericArgumentModel>::empty());
            lemma_insert_no_idents(b0);
        }
        while i < arguments.len()
            invariant
                0 <= i <= arguments@.len(),
                builder@.wf(),
                builder@ == b0.insert_idents(check_generics(arguments@.take(i as int)).0),
                check_generics(arguments@.take(i as int)).1 is None,
            decreases arguments@.len() - i,
        {
            let ghost b1 = builder@;
            let checked = check_valid_generic(builder, &arguments[i]);
            proof {
                assert(arguments@.take(i + 1).drop_last() =~= arguments@.take(i as int));
                assert(arguments@.take(i + 1).last() == arguments@[i as int]);
                lemma_insert_idents_append(
                    b0,
                    check_generics(arguments@.take(i as int)).0,
                    check_generic(arguments@[i as int]).0,
                );
            }
            if let Err(e) = checked {
                proof {
                    lemma_check_generics_prefix(arguments@, i as int + 1);
                    assert(arguments@.take(arguments@.len() as int) =~= arguments@);
                }
                return Err(e);
            }
            i = i + 1;
        }
        proof {
            assert(arguments@.take(arguments@.len() as int) =~= arguments@);
        }
    } else {
        proof {
            lemma_insert_no_idents(b0);
        }
    }
    Ok(segment.ident.clone())
}

/// Once a prefix of the arguments fails, checking more arguments changes nothing.
proof fn lemma_check_generics_prefix(s: Seq<GenericArgumentModel>, n: int)
    requires
        0 <= n <= s.len(),
        check_generics(s.take(n)).1 is Some,
    ensures
        check_generics(s) == check_generics(s.take(n)),
    decreases s.len() - n,
{
    if n < s.len() {
        assert(s.take(n + 1).drop_last() =~= s.take(n));
        lemma_check_generics_prefix(s, n + 1);
    } else {
        assert(s.take(n) =~= s);
    }
}

/// Whether a type path names the reply handle, by its last segment: `Reply<T>` and
/// `puppet::Reply<T>` both do.
pub open spec fn reply_outcome(path: TypePathModel) -> Result<bool, ErrorView> {
    if path.path.segments@.len() == 0 {
        Err(error_view(path.node, msg_missing_segment()))
    } else {
        Ok(path.path.segments@.last().ident@ == "Reply"@)
    }
}

/// Whether a type path names the reply handle `Reply`.
pub fn is_reply_type(path: &TypePathModel) -> (r: Result<bool, MacroError>)
    ensures
        match r {
            Ok(b) => reply_outcome(*path) == Ok::<bool, ErrorView>(b),
            Err(e) => reply_outcome(*path) == Err::<bool, ErrorView>(e@),
        },
{
    match get_segment(path) {
        Ok(_) => {
            let last = &path.path.segments[path.path.segments.len() - 1];
            let reply = String::from_str("Reply");
            Ok(last.ident == reply)
        },
        Err(e) => Err(e),
    }
}

/// The message a handler takes: the identifier of its type and the node of that type.
#[derive(Debug, PartialEq, Eq)]
pub struct ExtractedMessage {
    pub ident: String,
    pub ty: usize,
}

/// Where the reply handle stands among a handler's parameters after the receiver.
#[derive(Debug, Clone, Copy, PartialEq, Eq, Structural)]
pub enum ArgOrder {
    First,
    Second,
}

/// The message a handler takes, and for a handler with a reply, where its reply handle is.
#[derive(Debug, PartialEq, Eq)]
pub enum Extract {
    Message(ExtractedMessage),
    MessageWithReply(ExtractedMessage, ArgOrder),
}

/// An extracted message as plain values; `reply` is `None` for a direct handler.
pub struct ExtractView {
    pub ident: Seq<char>,
    pub ty: usize,
    pub reply: Option<ArgOrder>,
}

impl View for Extract {
    type V = ExtractView;

    open spec fn view(&self) -> ExtractView {
        match self {
            Extract::Message(m) => ExtractView { ident: m.ident@, ty: m.ty, reply: None },
            Extract::MessageWithReply(m, o) => ExtractView {
                ident: m.ident@,
                ty: m.ty,
                reply: Some(*o),
            },
        }
    }
}

impl Extract {
    /// The identifier of the message type.
    pub fn ident(&self) -> (id: String)
        ensures
            id@ == self@.ident,
    {
        match self {
            Self::Message(m) => m.ident.clone(),
            Self::MessageWithReply(m, _) => m.ident.clone(),
        }
    }

    /// The node of the message type.
    pub fn ty(&self) -> (ty: usize)
        ensures
            ty == self@.ty,
    {
        match self {
            Self::Message(m) => m.ty,
            Self::MessageWithReply(m, _) => m.ty,
        }
    }
}

/// The parameters that a handler with a reply may take after its receiver: at most two.
pub open spec fn reply_candidates(inputs: Seq<FnArgModel>) -> Seq<FnArgModel> {
    if inputs.len() <= 1 {
        Seq::empty()
    } else if inputs.len() <= 3 {
        inputs.subrange(1, inputs.len() as int)
    } else {
        inputs.subrange(1, 3)
    }
}

/// The state of the scan over a handler's parameters: what has been seen, the message
/// found (identifier and type node), and where the reply handle was found.
pub struct ScanState {
    pub seen: Seq<Seq<char>>,
    pub message: Option<(Seq<char>, usize)>,
    pub reply: Option<ArgOrder>,
}

/// The scan over the parameters of a handler with a reply, from position `pos`: it stops at
/// the first parameter that is not typed, and fails at the first whose type is not a path.
pub open spec fn scan(args: Seq<FnArgModel>, pos: int, st: ScanState, method_node: usize) -> (
    ScanState,
    Option<ErrorView>,
)
    decreases args.len() - pos,
{
    if pos < 0 || pos >= args.len() {
        (st, None)
    } else {
        match args[pos] {
            FnArgModel::Typed { ty, .. } => match ty {
                TypeModel::Path(p) => match reply_outcome(p) {
                    Err(e) => (st, Some(e)),
                    Ok(true) => scan(
                        args,
                        pos + 1,
                        ScanState {
                            reply: Some(
                                if pos == 0 {
                                    ArgOrder::First
                                } else {
                                    ArgOrder::Second
                                },
                            ),
                            ..st
                        },
                        method_node,
                    ),
                    Ok(false) => {
                        let o = message_ident_outcome(p);
                        let st2 = ScanState { seen: st.seen + o.0, ..st };
                        match o.1 {
                            Err(e) => (st2, Some(e)),
                            Ok(id) => scan(
                                args,
                                pos + 1,
                                ScanState { message: Some((id, p.node)), ..st2 },
                                method_node,
                            ),
                        }
                    },
                },
                _ => (st, Some(error_view(method_node, msg_unsupported_argument()))),
            },
            _ => (st, None),
        }
    }
}

/// What extracting the message of `method` sees and its result.
pub open spec fn extract_outcome(method: MethodModel, kind: HandlerKind) -> (
    Seq<Seq<char>>,
    Result<ExtractView, ErrorView>,
) {
    let inputs = method.inputs@;
    if inputs.len() > expected_count(kind) {
        (
            Seq::empty(),
            Err(
                error_view(
                    method.node,
                    msg_too_many_arguments() + join(input_names(inputs.skip(2)), ", "@),
                ),
            ),
        )
    } else if kind == HandlerKind::Direct {
        if inputs.len() > 1 && inputs[1] is Typed {
            match inputs[1]->ty {
                TypeModel::Path(p) => {
                    let o = message_ident_outcome(p);
                    match o.1 {
                        Ok(id) => (o.0, Ok(ExtractView { ident: id, ty: p.node, reply: None })),
                        Err(e) => (o.0, Err(e)),
                    }
                },
                _ => (Seq::empty(), Err(error_view(method.node, msg_unsupported_argument()))),
            }
        } else {
            (Seq::empty(), Err(error_view(method.node, msg_missing_message())))
        }
    } else {
        let r = scan(
            reply_candidates(inputs),
            0,
            ScanState { seen: Seq::empty(), message: None, reply: None },
            method.node,
        );
        match r.1 {
            Some(e) => (r.0.seen, Err(e)),
            None => match (r.0.message, r.0.reply) {
                (Some((id, ty)), Some(order)) => (
                    r.0.seen,
                    Ok(ExtractView { ident: id, ty, reply: Some(order) }),
                ),
                _ => (r.0.seen, Err(error_view(method.node, msg_missing_message_or_reply()))),
            },
        }
    }
}

/// Extracts the message type of a handler, recording in the builder the type parameters
/// that the message uses.
pub fn extract_message(builder: &mut GenericBuilder, method: &MethodModel, kind: HandlerKind) -> (r:
    Result<Extract, MacroError>)
    requires
        old(builder)@.wf(),
    ensures
        final(builder)@ == old(builder)@.insert_idents(extract_outcome(*method, kind).0),
        match r {
            Ok(x) => extract_outcome(*method, kind).1 == Ok::<ExtractView, ErrorView>(x@),
            Err(e) => extract_outcome(*method, kind).1 == Err::<ExtractView, ErrorView>(e@),
        },
{
    let ghost b0 = builder@;
    let n = method.inputs.len();
    if n > kind.expected_argument_count() {
        let rest = format_inputs(&method.inputs.as_slice()[2..n]);
        proof {
            assert(method.inputs@.skip(2) =~= method.inputs@.subrange(2, n as int));
        }
        let mut message = String::from_str(
            "Message handler can only support accepting `self` and a single message parameter. Got: ",
        );
        message.append(rest.as_str());
        proof {
            lemma_insert_no_idents(b0);
        }
        return Err(MacroError { node: method.node, message });
    }
    if kind == HandlerKind::Direct {
        if n > 1 {
            if let FnArgModel::Typed { ty, .. } = &method.inputs[1] {
                return if let TypeModel::Path(path) = ty {
                    match try_get_message_ident(builder, path) {
                        Ok(v) => Ok(Extract::Message(ExtractedMessage { ident: v, ty: path.node })),
                        Err(e) => Err(e),
                    }
                } else {
                    proof {
                        lemma_insert_no_idents(b0);
                    }
                    Err(
                        error_at(
                            method.node,
                            "Only concrete types or generics are supported by the system. impl trait blocks and others are not.",
                        ),
                    )
                };
            }
        }
        proof {
            lemma_insert_no_idents(b0);
        }
        return Err(error_at(method.node, "Expected message argument to be present."));
    }
    let ghost args = reply_candidates(method.inputs@);
    let end: usize = if n <= 1 {
        1
    } else if n <= 3 {
        n
    } else {
        3
    };
    let mut pos: usize = 0;
    let mut message_argument: Option<ExtractedMessage> = None;
    let mut reply_argument: Option<ArgOrder> = None;
    let ghost init = ScanState { seen: Seq::empty(), message: None, reply: None };
    let ghost mut st = init;
    proof {
        lemma_insert_no_idents(b0);
    }
    while pos + 1 < end
        invariant
            1 <= end <= 3,
            end <= n || n <= 1,
            n == method.inputs@.len(),
            args == reply_candidates(method.inputs@),
            args.len() == end - 1,
            forall|k: int| 0 <= k < args.len() ==> args[k] == method.inputs@[k + 1],
            0 <= pos <= args.len(),
            kind == HandlerKind::WithReply,
            n <= expected_count(kind),
            b0 == old(builder)@,
            init == (ScanState { seen: Seq::empty(), message: None, reply: None }),
            builder@.wf(),
            builder@ == b0.insert_idents(st.seen),
            scan(args, 0, init, method.node) == scan(args, pos as int, st, method.node),
            match message_argument {
                Some(m) => st.message == Some((m.ident@, m.ty)),
                None => st.message is None,
            },
            reply_argument == st.reply,
        ensures
            scan(args, 0, init, method.node) == (st, None::<ErrorView>),
            builder@ == b0.insert_idents(st.seen),
            match message_argument {
                Some(m) => st.message == Some((m.ident@, m.ty)),
                None => st.message is None,
            },
            reply_argument == st.reply,
        decreases end - pos,
    {
        let arg = &method.inputs[pos + 1];
        if let FnArgModel::Typed { ty, .. } = arg {
            if let TypeModel::Path(path) = ty {
                let is_reply = match is_reply_type(path) {
                    Ok(b) => b,
                    Err(e) => {
                        proof {
                            assert(scan(args, pos as int, st, method.node) == (st, Some(e@)));
                        }
                        return Err(e);
                    },
                };
                if is_reply {
                    reply_argument = if pos == 0 {
                        Some(ArgOrder::First)
                    } else {
                        Some(ArgOrder::Second)
                    };
                    proof {
                        st = ScanState { reply: reply_argument, ..st };
                    }
                    pos = pos + 1;
                    continue ;
                }
                let ghost b1 = builder@;
                let got = try_get_message_ident(builder, path);
                proof {
                    lemma_insert_idents_append(b0, st.seen, message_ident_outcome(*path).0);
                    st = ScanState { seen: st.seen + message_ident_outcome(*path).0, ..st };
                }
                match got {
                    Ok(v) => {
                        message_argument = Some(ExtractedMessage { ident: v, ty: path.node });
                        proof {
                            st = ScanState { message: Some((v@, path.node)), ..st };
                        }
                    },
                    Err(e) => {
                        return Err(e);
                    },
                }
            } else {
                return Err(
                    error_at(
                        method.node,
                        "Only concrete types or generics are supported by the system. impl trait blocks and others are not.",
                    ),
                );
            }
        } else {
            break ;
        }
        pos = pos + 1;
    }
    match (message_argument, reply_argument) {
        (Some(m), Some(order)) => Ok(Extract::MessageWithReply(m, order)),
        _ => Err(
            error_at(
                method.node,
                "Expected message argument to be present and a reply argument, hint: reply parameter must take `puppet::Reply<T>` type.",
            ),
        ),
    }
}

} // verus!

verus! {

// ---------------------------------------------------------------------------------------------
// Moving bounds into the `where` clause
// ---------------------------------------------------------------------------------------------

/// The generics of the actor `impl` once bounds are moved: type parameters without bounds,
/// and the `where` clause that now holds every bound.
#[derive(Debug, PartialEq, Eq)]
pub struct ProcessedGenerics {
    pub types: Vec<TypeParamModel>,
    pub where_clause: Vec<WhereEntry>,
}

/// A type parameter without its bounds.
pub open spec fn strip(p: TypeParamView) -> TypeParamView {
    TypeParamView { node: p.node, ident: p.ident, bounds: Seq::empty() }
}

/// The diagnostic for a generic parameter that an actor cannot have.
pub open spec fn param_error(p: GenericParamView) -> Option<ErrorView> {
    match p {
        GenericParamView::Type(_) => None,
        GenericParamView::Lifetime { node } => Some(error_view(node, msg_lifetime_generics())),
        GenericParamView::Const { node } => Some(error_view(node, msg_const_generics())),
    }
}

/// The generic parameters before position `n` are all type parameters.
pub open spec fn all_types(s: Seq<GenericParamView>, n: int) -> bool {
    forall|k: int| 0 <= k < n ==> #[trigger] s[k] is Type
}

/// The `where` entries moved out of the first `n` type parameters.
pub open spec fn moved_entries(s: Seq<GenericParamView>, n: int) -> Seq<WhereEntryView> {
    Seq::new(n as nat, |k: int| WhereEntryView::Moved(s[k]->Type_0))
}

/// The parameters with the first `n` stripped of their bounds.
pub open spec fn stripped_prefix(s: Seq<GenericParamView>, n: int) -> Seq<GenericParamView> {
    Seq::new(
        s.len(),
        |k: int|
            if k < n {
                GenericParamView::Type(strip(s[k]->Type_0))
            } else {
                s[k]
            },
    )
}

/// Moves the bounds of every type parameter into a predicate of the `where` clause, in the
/// parameters' order; fails at the first lifetime or const parameter, having moved the
/// bounds of the type parameters before it.
fn remove_bounds_from_generics(
    generics: &mut Vec<GenericParamModel>,
    where_clause: &mut Vec<WhereEntry>,
) -> (r: Result<(), MacroError>)
    ensures
        match r {
            Ok(()) => {
                &&& all_types(generic_param_views(old(generics)@), old(generics)@.len() as int)
                &&& generic_param_views(final(generics)@) == stripped_prefix(
                    generic_param_views(old(generics)@),
                    old(generics)@.len() as int,
                )
                &&& entry_views(final(where_clause)@) == entry_views(old(where_clause)@)
                    + moved_entries(
                    generic_param_views(old(generics)@),
                    old(generics)@.len() as int,
                )
            },
            Err(e) => exists|j: int|
                0 <= j < old(generics)@.len() && all_types(generic_param_views(old(generics)@), j)
                    && param_error(old(generics)@[j]@) == Some(e@) && generic_param_views(
                    final(generics)@,
                ) == stripped_prefix(generic_param_views(old(generics)@), j) && entry_views(
                    final(where_clause)@,
                ) == entry_views(old(where_clause)@) + moved_entries(
                    generic_param_views(old(generics)@),
                    j,
                ),
        },
{
    let ghost g0 = generic_param_views(generics@);
    let ghost w0 = entry_views(where_clause@);
    let n = generics.len();
    let mut i: usize = 0;
    proof {
        assert(generic_param_views(generics@) =~= stripped_prefix(g0, 0));
        assert(entry_views(where_clause@) =~= w0 + moved_entries(g0, 0));
    }
    while i < n
        invariant
            0 <= i <= n,
            n == generics@.len(),
            g0 == generic_param_views(old(generics)@),
            w0 == entry_views(old(where_clause)@),
            g0.len() == n,
            all_types(g0, i as int),
            generic_param_views(generics@) == stripped_prefix(g0, i as int),
            entry_views(where_clause@) == w0 + moved_entries(g0, i as int),
        decreases n - i,
    {
        proof {
            assert(generic_param_views(generics@)[i as int] == g0[i as int]);
        }
        let (stripped, moved) = match &generics[i] {
            GenericParamModel::Type(ty) => {
                let bounds: Vec<usize> = Vec::new();
                let stripped_param = TypeParamModel {
                    node: ty.node,
                    ident: ty.ident.clone(),
                    bounds,
                };
                let moved_param = ty.copy();
                proof {
                    assert(stripped_param@.bounds =~= Seq::<usize>::empty());
                    assert(stripped_param@ == strip(ty@));
                    assert(g0[i as int] == GenericParamView::Type(ty@));
                }
                (GenericParamModel::Type(stripped_param), WhereEntry::Moved(moved_param))
            },
            GenericParamModel::Lifetime { node } => {
                return Err(error_at(*node, "Puppet actors cannot support lifetime generics."));
            },
            GenericParamModel::Const { node } => {
                return Err(error_at(*node, "Puppet actors cannot support const generics."));
            },
        };
        proof {
            assert(stripped@ == GenericParamView::Type(strip(g0[i as int]->Type_0)));
            assert(moved@ == WhereEntryView::Moved(g0[i as int]->Type_0));
        }
        let ghost before = generics@;
        let ghost where_before = where_clause@;
        generics.set(i, stripped);
        where_clause.push(moved);
        proof {
            lemma_entry_views_push(where_before, moved);
            assert(generics@ == before.update(i as int, stripped));
            assert forall|k: int| 0 <= k < n implies #[trigger] generic_param_views(generics@)[k]
                == stripped_prefix(g0, i + 1)[k] by {
                if k != i {
                    assert(generics@[k] == before[k]);
                    assert(generic_param_views(before)[k] == stripped_prefix(g0, i as int)[k]);
                } else {
                    assert(generics@[k] == stripped);
                }
            }
            assert(moved_entries(g0, i + 1) =~= moved_entries(g0, i as int).push(moved@));
            assert(generic_param_views(generics@) =~= stripped_prefix(g0, i + 1));
            assert(entry_views(where_clause@) =~= w0 + moved_entries(g0, i + 1));
        }
        i = i + 1;
    }
    Ok(())
}

/// The processed `where` clause's entries for the predicates written in the `impl`.
pub open spec fn written_entries(w: Option<Vec<WherePredicateModel>>) -> Seq<WhereEntryView> {
    match w {
        Some(preds) => Seq::new(preds@.len(), |k: int| WhereEntryView::Written(preds@[k]@)),
        None => Seq::empty(),
    }
}

/// The diagnostic for the first parameter that an actor cannot have, if any.
pub open spec fn generics_error(params: Seq<GenericParamView>) -> Option<ErrorView> {
    if exists|j: int| 0 <= j < params.len() && !(params[j] is Type) {
        let j = choose|j: int| 0 <= j < params.len() && !(params[j] is Type) && all_types(params, j);
        param_error(params[j])
    } else {
        None
    }
}

/// The type parameters of processed generics: those of the `impl`, without bounds.
pub open spec fn processed_types(generics: GenericsModel) -> Seq<TypeParamView> {
    Seq::new(generics.params@.len(), |k: int| strip(generics.params@[k]@->Type_0))
}

/// The `where` clause of processed generics: the written predicates, then one predicate per
/// type parameter holding its bounds.
pub open spec fn processed_where(generics: GenericsModel) -> Seq<WhereEntryView> {
    written_entries(generics.where_clause) + moved_entries(
        generic_param_views(generics.params@),
        generics.params@.len() as int,
    )
}

/// The first non-type parameter is the one `generics_error` reports.
pub proof fn lemma_generics_error(params: Seq<GenericParamView>, j: int)
    requires
        0 <= j < params.len(),
        !(params[j] is Type),
        all_types(params, j),
    ensures
        generics_error(params) == param_error(params[j]),
{
    let k = choose|k: int| 0 <= k < params.len() && !(params[k] is Type) && all_types(params, k);
    if k < j {
        assert(params[k] is Type);
    } else if j < k {
        assert(params[j] is Type);
    }
}

/// Extracts the generics from the impl of a struct and moves any constraints to the where
/// clause.
pub fn process_impl_generics(generics: GenericsModel) -> (r: Result<ProcessedGenerics, MacroError>)
    ensures
        match r {
            Ok(p) => {
                &&& generics_error(generic_param_views(generics.params@)) is None
                &&& param_views(p.types@) == processed_types(generics)
                &&& entry_views(p.where_clause@) == processed_where(generics)
            },
            Err(e) => generics_error(generic_param_views(generics.params@)) == Some(e@),
        },
{
    let GenericsModel { params, where_clause } = generics;
    let ghost params0 = params@;
    let mut actor_where: Vec<WhereEntry> = Vec::new();
    if let Some(preds) = &where_clause {
        let mut i: usize = 0;
        while i < preds.len()
            invariant
                0 <= i <= preds@.len(),
                entry_views(actor_where@) == Seq::new(
                    i as nat,
                    |k: int| WhereEntryView::Written(preds@[k]@),
                ),
            decreases preds@.len() - i,
        {
            let entry = WhereEntry::Written(preds[i].copy());
            proof {
                assert(entry@ == WhereEntryView::Written(preds@[i as int]@));
            }
            let ghost where_before = actor_where@;
            actor_where.push(entry);
            proof {
                lemma_entry_views_push(where_before, entry);
                assert(entry_views(actor_where@) =~= Seq::new(
                    (i + 1) as nat,
                    |k: int| WhereEntryView::Written(preds@[k]@),
                ));
            }
            i = i + 1;
        }
    }
    proof {
        assert(entry_views(actor_where@) =~= written_entries(where_clause));
    }
    let mut actor_generics = params;
    let removed = remove_bounds_from_generics(&mut actor_generics, &mut actor_where);
    if let Err(e) = removed {
        proof {
            let g = generic_param_views(params0);
            let j = choose|j: int|
                0 <= j < params0.len() && all_types(g, j) && param_error(params0[j]@) == Some(
                    e@,
                );
            assert(g[j] == params0[j]@);
            lemma_generics_error(g, j);
        }
        return Err(e);
    }
    proof {
        let g = generic_param_views(params0);
        if exists|j: int| 0 <= j < g.len() && !(g[j] is Type) {
            let j = choose|j: int| 0 <= j < g.len() && !(g[j] is Type);
            assert(g[j] is Type);
        }
    }
    let ghost stripped = generic_param_views(actor_generics@);
    proof {
        assert(stripped.len() == actor_generics@.len());
        assert(stripped_prefix(generic_param_views(params0), params0.len() as int).len()
            == params0.len());
    }
    let mut types: Vec<TypeParamModel> = Vec::new();
    let mut i: usize = 0;
    while i < actor_generics.len()
        invariant
            0 <= i <= actor_generics@.len(),
            actor_generics@.len() == params0.len(),
            stripped == generic_param_views(actor_generics@),
            stripped == stripped_prefix(generic_param_views(params0), params0.len() as int),
            all_types(generic_param_views(params0), params0.len() as int),
            param_views(types@) == Seq::new(i as nat, |k: int| strip(params0[k]@->Type_0)),
        decreases actor_generics@.len() - i,
    {
        proof {
            assert(generic_param_views(params0)[i as int] is Type);
            assert(stripped[i as int] == actor_generics@[i as int]@);
        }
        if let GenericParamModel::Type(ty) = &actor_generics[i] {
            let c = ty.copy();
            proof {
                assert(stripped[i as int] == GenericParamView::Type(ty@));
                assert(c@ == strip(params0[i as int]@->Type_0));
            }
            let ghost types_before = types@;
            types.push(c);
            proof {
                lemma_param_views_push(types_before, c);
            }
        }
        proof {
            assert(param_views(types@) =~= Seq::new(
                (i + 1) as nat,
                |k: int| strip(params0[k]@->Type_0),
            ));
        }
        i = i + 1;
    }
    Ok(ProcessedGenerics { types, where_clause: actor_where })
}

} // verus!

verus! {

// ---------------------------------------------------------------------------------------------
// Building the generic builder and reading it back
// ---------------------------------------------------------------------------------------------

/// The type parameters keyed by identifier: each identifier once, at the place where it
/// first occurs, holding the last parameter with that identifier.
pub open spec fn dedup_params(s: Seq<TypeParamView>) -> Seq<TypeParamView>
    decreases s.len(),
{
    if s.len() == 0 {
        Seq::empty()
    } else {
        let d = dedup_params(s.drop_last());
        let p = s.last();
        if exists|k: int| 0 <= k < d.len() && d[k].ident == p.ident {
            let k = choose|k: int| 0 <= k < d.len() && d[k].ident == p.ident;
            d.update(k, p)
        } else {
            d.push(p)
        }
    }
}

/// No two parameters share an identifier.
pub open spec fn distinct_idents(s: Seq<TypeParamView>) -> bool {
    forall|i: int, j: int| 0 <= i < j < s.len() ==> s[i].ident != s[j].ident
}

/// The parameters whose flag is `want`, in order.
pub open spec fn select_params(lookup: Seq<TypeParamView>, used: Seq<bool>, want: bool) -> Seq<
    TypeParamView,
>
    decreases lookup.len(),
{
    if lookup.len() == 0 {
        Seq::empty()
    } else {
        select_params(lookup.drop_last(), used.take(lookup.len() - 1), want) + if used[lookup.len()
            - 1] == want {
            seq![lookup.last()]
        } else {
            Seq::empty()
        }
    }
}

/// Whether an entry of the processed `where` clause constrains a type parameter whose flag
/// is `built`.
pub open spec fn keeps(b: GenericBuilderView, e: WhereEntryView, built: bool) -> bool {
    match entry_subject(e) {
        Some(id) => if built {
            b.is_built(id)
        } else {
            b.is_remaining(id)
        },
        None => false,
    }
}

/// The entries of the processed `where` clause that constrain a type parameter whose flag
/// is `built`, in order.
pub open spec fn select_entries(s: Seq<WhereEntryView>, b: GenericBuilderView, built: bool) -> Seq<
    WhereEntryView,
>
    decreases s.len(),
{
    if s.len() == 0 {
        Seq::empty()
    } else {
        select_entries(s.drop_last(), b, built) + if keeps(b, s.last(), built) {
            seq![s.last()]
        } else {
            Seq::empty()
        }
    }
}

/// The type parameters that the messages do not use, to be declared on the enum's run method.
#[derive(Debug, PartialEq, Eq)]
pub struct RemainingGenerics(pub Vec<TypeParamModel>);

/// The string views of a sequence of strings.
pub open spec fn string_views(s: Seq<String>) -> Seq<Seq<char>> {
    Seq::new(s.len(), |i: int| s[i]@)
}

/// The identifiers of a sequence of type parameters.
pub open spec fn param_idents(s: Seq<TypeParamView>) -> Seq<Seq<char>> {
    Seq::new(s.len(), |i: int| s[i].ident)
}

proof fn lemma_dedup_distinct(s: Seq<TypeParamView>)
    ensures
        distinct_idents(dedup_params(s)),
    decreases s.len(),
{
    if s.len() > 0 {
        lemma_dedup_distinct(s.drop_last());
    }
}

impl GenericBuilder {
    /// The position of the type parameter named `id`, if any.
    fn position_of(&self, id: &String) -> (r: Option<usize>)
        ensures
            match r {
                Some(k) => k < self@.lookup.len() && self@.lookup[k as int].ident == id@,
                None => forall|k: int|
                    0 <= k < self@.lookup.len() ==> self@.lookup[k].ident != id@,
            },
    {
        let mut k: usize = 0;
        while k < self.types_lookup.len()
            invariant
                0 <= k <= self.types_lookup@.len(),
                forall|j: int| 0 <= j < k ==> self@.lookup[j].ident != id@,
            decreases self.types_lookup@.len() - k,
        {
            proof {
                assert(self@.lookup[k as int] == self.types_lookup@[k as int]@);
            }
            if self.types_lookup[k].ident == *id {
                return Some(k);
            }
            k = k + 1;
        }
        None
    }

    /// Whether `id` names a type parameter whose flag is `built`.
    fn has_flag(&self, id: &String, built: bool) -> (r: bool)
        requires
            self@.wf(),
        ensures
            r == if built {
                self@.is_built(id@)
            } else {
                self@.is_remaining(id@)
            },
    {
        match self.position_of(id) {
            Some(k) => {
                proof {
                    if built && self@.is_built(id@) {
                        let j = choose|j: int|
                            0 <= j < self@.lookup.len() && self@.used[j] && self@.lookup[j].ident
                                == id@;
                        assert(j == k);
                    }
                    if !built && self@.is_remaining(id@) {
                        let j = choose|j: int|
                            0 <= j < self@.lookup.len() && !self@.used[j]
                                && self@.lookup[j].ident == id@;
                        assert(j == k);
                    }
                }
                self.built[k] == built
            },
            None => false,
        }
    }

    /// The type parameters that no message uses.
    pub fn remaining_generics(&self) -> (r: RemainingGenerics)
        requires
            self@.wf(),
        ensures
            param_views(r.0@) == select_params(self@.lookup, self@.used, false),
    {
        RemainingGenerics(self.select(false))
    }

    /// The identifiers of the type parameters that the messages use, which the message enum
    /// takes as its own generics.
    pub fn built_generics(&self) -> (r: Vec<String>)
        requires
            self@.wf(),
        ensures
            string_views(r@) == param_idents(select_params(self@.lookup, self@.used, true)),
    {
        let params = self.select(true);
        let mut idents: Vec<String> = Vec::new();
        let mut i: usize = 0;
        while i < params.len()
            invariant
                0 <= i <= params@.len(),
                idents@.len() == i,
                string_views(idents@) == param_idents(param_views(params@.take(i as int))),
            decreases params@.len() - i,
        {
            let ghost before = idents@;
            let id = params[i].ident.clone();
            idents.push(id);
            proof {
                let lhs = string_views(idents@);
                let rhs = param_idents(param_views(params@.take(i + 1)));
                assert forall|k: int| 0 <= k < i + 1 implies lhs[k] == rhs[k] by {
                    if k < i {
                        assert(idents@[k] == before[k]);
                        assert(string_views(before)[k] == param_idents(
                            param_views(params@.take(i as int)),
                        )[k]);
                    }
                }
                assert(lhs =~= rhs);
            }
            i = i + 1;
        }
        proof {
            assert(params@.take(params@.len() as int) =~= params@);
        }
        idents
    }

    /// The parameters whose flag is `want`, in order.
    fn select(&self, want: bool) -> (r: Vec<TypeParamModel>)
        requires
            self@.wf(),
        ensures
            param_views(r@) == select_params(self@.lookup, self@.used, want),
    {
        let mut r: Vec<TypeParamModel> = Vec::new();
        let mut i: usize = 0;
        while i < self.types_lookup.len()
            invariant
                0 <= i <= self@.lookup.len(),
                self@.wf(),
                param_views(r@) == select_params(
                    self@.lookup.take(i as int),
                    self@.used.take(i as int),
                    want,
                ),
            decreases self@.lookup.len() - i,
        {
            proof {
                assert(self@.lookup.take(i + 1).drop_last() =~= self@.lookup.take(i as int));
                assert(self@.used.take(i + 1).take(i as int) =~= self@.used.take(i as int));
                assert(self@.lookup.take(i + 1).last() == self@.lookup[i as int]);
                assert(self@.lookup[i as int] == self.types_lookup@[i as int]@);
            }
            if self.built[i] == want {
                let ghost before = r@;
                let c = self.types_lookup[i].copy();
                r.push(c);
                proof {
                    lemma_param_views_push(before, c);
                }
            } else {
                proof {
                    assert(select_params(
                        self@.lookup.take(i + 1),
                        self@.used.take(i + 1),
                        want,
                    ) =~= select_params(self@.lookup.take(i as int), self@.used.take(i as int), want));
                }
            }
            i = i + 1;
        }
        proof {
            assert(self@.lookup.take(self@.lookup.len() as int) =~= self@.lookup);
            assert(self@.used.take(self@.lookup.len() as int) =~= self@.used);
        }
        r
    }

    /// The `where` predicates that constrain a type parameter whose flag is `built`.
    fn select_where(&self, built: bool) -> (r: Vec<WhereEntry>)
        requires
            self@.wf(),
        ensures
            entry_views(r@) == select_entries(self@.parent_where, self@, built),
    {
        let mut clause: Vec<WhereEntry> = Vec::new();
        let mut i: usize = 0;
        while i < self.parent_where.len()
            invariant
                0 <= i <= self@.parent_where.len(),
                self@.wf(),
                entry_views(clause@) == select_entries(
                    self@.parent_where.take(i as int),
                    self@,
                    built,
                ),
            decreases self@.parent_where.len() - i,
        {
            let pred = &self.parent_where[i];
            proof {
                assert(self@.parent_where.take(i + 1).drop_last() =~= self@.parent_where.take(
                    i as int,
                ));
                assert(self@.parent_where.take(i + 1).last() == pred@);
            }
            let subject: Option<&String> = match pred {
                WhereEntry::Written(WherePredicateModel::Type { bounded_path: Some(p), .. }) => {
                    if p.len() > 0 {
                        Some(&p[0])
                    } else {
                        None
                    }
                },
                WhereEntry::Moved(p) => Some(&p.ident),
                _ => None,
            };
            let keep = match subject {
                Some(id) => self.has_flag(id, built),
                None => false,
            };
            proof {
                match subject {
                    Some(id) => {
                        assert(entry_subject(pred@) == Some(id@));
                    },
                    None => {
                        assert(entry_subject(pred@) is None);
                    },
                }
            }
            if keep {
                let ghost before = clause@;
                let c = pred.copy();
                clause.push(c);
                proof {
                    lemma_entry_views_push(before, c);
                }
            } else {
                proof {
                    assert(select_entries(self@.parent_where.take(i + 1), self@, built)
                        =~= select_entries(self@.parent_where.take(i as int), self@, built));
                }
            }
            i = i + 1;
        }
        proof {
            assert(self@.parent_where.take(self@.parent_where.len() as int) =~= self@.parent_where);
        }
        clause
    }

    /// The `where` predicates on the type parameters that no message uses.
    pub fn remaining_where(&self) -> (r: Vec<WhereEntry>)
        requires
            self@.wf(),
        ensures
            entry_views(r@) == select_entries(self@.parent_where, self@, false),
    {
        self.select_where(false)
    }

    /// The `where` predicates on the type parameters that the messages use, which the
    /// message enum carries.
    pub fn enum_where(&self) -> (r: Vec<WhereEntry>)
        requires
            self@.wf(),
        ensures
            entry_views(r@) == select_entries(self@.parent_where, self@, true),
    {
        self.select_where(true)
    }
}

/// Creates a new generic builder.
///
/// The builder is designed to track what generics are used by messages and return type and
/// what are just part of the impl itself.
///
/// This lets us keep the generics not used for messages and inter-mix them.
pub fn create_generic_builder(generics: &ProcessedGenerics) -> (b: GenericBuilder)
    ensures
        b@.wf(),
        b@.lookup == dedup_params(param_views(generics.types@)),
        b@.used == Seq::new(b@.lookup.len(), |k: int| false),
        b@.parent_where == entry_views(generics.where_clause@),
{
    let mut parent_where: Vec<WhereEntry> = Vec::new();
    let mut i: usize = 0;
    while i < generics.where_clause.len()
        invariant
            0 <= i <= generics.where_clause@.len(),
            entry_views(parent_where@) == entry_views(generics.where_clause@.take(i as int)),
        decreases generics.where_clause@.len() - i,
    {
        let ghost before = parent_where@;
        let c = generics.where_clause[i].copy();
        parent_where.push(c);
        proof {
            lemma_entry_views_push(before, c);
            assert(entry_views(generics.where_clause@.take(i + 1)) =~= entry_views(
                generics.where_clause@.take(i as int),
            ).push(generics.where_clause@[i as int]@));
        }
        i = i + 1;
    }
    proof {
        assert(generics.where_clause@.take(generics.where_clause@.len() as int)
            =~= generics.where_clause@);
    }
    let mut builder = GenericBuilder { types_lookup: Vec::new(), built: Vec::new(), parent_where };
    let ghost params = param_views(generics.types@);
    let mut j: usize = 0;
    proof {
        assert(builder@.lookup =~= dedup_params(params.take(0)));
    }
    while j < generics.types.len()
        invariant
            0 <= j <= generics.types@.len(),
            params == param_views(generics.types@),
            builder@.lookup == dedup_params(params.take(j as int)),
            builder@.used == Seq::new(builder@.lookup.len(), |k: int| false),
            builder@.parent_where == entry_views(generics.where_clause@),
            builder.types_lookup@.len() == builder.built@.len(),
        decreases generics.types@.len() - j,
    {
        let ty = &generics.types[j];
        let ghost d = builder@.lookup;
        proof {
            assert(params.take(j + 1).drop_last() =~= params.take(j as int));
            assert(params.take(j + 1).last() == ty@);
            lemma_dedup_distinct(params.take(j as int));
        }
        let c = ty.copy();
        match builder.position_of(&ty.ident) {
            Some(k) => {
                let ghost lookup_before = builder.types_lookup@;
                builder.types_lookup.set(k, c);
                proof {
                    let kk = choose|kk: int| 0 <= kk < d.len() && d[kk].ident == ty@.ident;
                    assert(kk == k as int);
                    assert(builder@.lookup =~= d.update(k as int, ty@));
                }
            },
            None => {
                let ghost lookup_before = builder.types_lookup@;
                builder.types_lookup.push(c);
                builder.built.push(false);
                proof {
                    lemma_param_views_push(lookup_before, c);
                }
            },
        }
        proof {
            assert(builder@.used =~= Seq::new(builder@.lookup.len(), |k: int| false));
        }
        j = j + 1;
    }
    proof {
        assert(params.take(params.len() as int) =~= params);
        lemma_dedup_distinct(params);
    }
    builder
}

} // verus!

verus! {

// ---------------------------------------------------------------------------------------------
// Laws of the generic builder
// ---------------------------------------------------------------------------------------------

/// Every type parameter of the `impl` is either used by the messages or remaining, never
/// both; an identifier that names no type parameter is neither.
pub proof fn lemma_builder_partition(b: GenericBuilderView, id: Seq<char>)
    requires
        b.wf(),
    ensures
        (exists|k: int| 0 <= k < b.lookup.len() && b.lookup[k].ident == id) ==> (b.is_built(id)
            != b.is_remaining(id)),
        !(exists|k: int| 0 <= k < b.lookup.len() && b.lookup[k].ident == id) ==> (!b.is_built(
            id,
        ) && !b.is_remaining(id)),
{
    if exists|k: int| 0 <= k < b.lookup.len() && b.lookup[k].ident == id {
        let k = choose|k: int| 0 <= k < b.lookup.len() && b.lookup[k].ident == id;
        if b.is_built(id) && b.is_remaining(id) {
            let i = choose|i: int| 0 <= i < b.lookup.len() && b.used[i] && b.lookup[i].ident == id;
            let j = choose|j: int|
                0 <= j < b.lookup.len() && !b.used[j] && b.lookup[j].ident == id;
            assert(i != j);
            if i < j {
                assert(b.lookup[i].ident != b.lookup[j].ident);
            } else {
                assert(b.lookup[j].ident != b.lookup[i].ident);
            }
        }
        if !b.used[k] {
            assert(b.is_remaining(id));
        } else {
            assert(b.is_built(id));
        }
    }
}

/// Each `where` predicate that constrains a type parameter of the `impl` goes to exactly one
/// of the message enum and its run method; any other predicate goes to neither.
pub proof fn lemma_where_partition(b: GenericBuilderView, e: WhereEntryView)
    requires
        b.wf(),
    ensures
        (entry_subject(e) matches Some(id) && exists|k: int|
            0 <= k < b.lookup.len() && b.lookup[k].ident == id) ==> keeps(b, e, true) != keeps(
            b,
            e,
            false,
        ),
        !(entry_subject(e) matches Some(id) && exists|k: int|
            0 <= k < b.lookup.len() && b.lookup[k].ident == id) ==> (!keeps(b, e, true) && !keeps(
            b,
            e,
            false,
        )),
{
    if let Some(id) = entry_subject(e) {
        lemma_builder_partition(b, id);
    }
}

/// Recording the same identifiers twice is recording them once.
pub proof fn lemma_insert_idents_idempotent(b: GenericBuilderView, idents: Seq<Seq<char>>)
    ensures
        b.insert_idents(idents).insert_idents(idents) == b.insert_idents(idents),
{
    assert(b.insert_idents(idents).insert_idents(idents).used =~= b.insert_idents(idents).used);
}

/// Recording identifiers never forgets a type parameter already used, every recorded
/// identifier that names a type parameter makes it used, and a type parameter that was not
/// used and is not recorded stays unused; the parameters and `where` clause are unchanged.
pub proof fn lemma_seen_idents_are_built(b: GenericBuilderView, idents: Seq<Seq<char>>)
    requires
        b.wf(),
    ensures
        b.insert_idents(idents).wf(),
        forall|id: Seq<char>| b.is_built(id) ==> #[trigger] b.insert_idents(idents).is_built(id),
        forall|i: int|
            0 <= i < idents.len() && (exists|k: int|
                0 <= k < b.lookup.len() && b.lookup[k].ident == #[trigger] idents[i])
                ==> b.insert_idents(idents).is_built(idents[i]),
        forall|id: Seq<char>|
            b.is_remaining(id) && !idents.contains(id) ==> #[trigger] b.insert_idents(
                idents,
            ).is_remaining(id),
        b.insert_idents(idents).lookup == b.lookup,
        b.insert_idents(idents).parent_where == b.parent_where,
{
    let nb = b.insert_idents(idents);
    assert forall|id: Seq<char>| b.is_remaining(id) && !idents.contains(id) implies #[trigger] nb.is_remaining(id) by {
        let k = choose|k: int| 0 <= k < b.lookup.len() && !b.used[k] && b.lookup[k].ident == id;
        assert(!nb.used[k]);
    }
    assert forall|id: Seq<char>| b.is_built(id) implies #[trigger] nb.is_built(id) by {
        let k = choose|k: int| 0 <= k < b.lookup.len() && b.used[k] && b.lookup[k].ident == id;
        assert(nb.used[k]);
    }
    assert forall|i: int|
        0 <= i < idents.len() && (exists|k: int|
            0 <= k < b.lookup.len() && b.lookup[k].ident == #[trigger] idents[i]) implies nb.is_built(
        idents[i],
    ) by {
        let k = choose|k: int| 0 <= k < b.lookup.len() && b.lookup[k].ident == idents[i];
        assert(idents.contains(b.lookup[k].ident));
        assert(nb.used[k]);
    }
}

/// The generic builder knows each type parameter of the `impl` under its identifier, once.
pub proof fn lemma_dedup_params_idents(s: Seq<TypeParamView>, id: Seq<char>)
    ensures
        distinct_idents(dedup_params(s)),
        (exists|k: int| 0 <= k < dedup_params(s).len() && dedup_params(s)[k].ident == id) <==> (
        exists|j: int| 0 <= j < s.len() && s[j].ident == id),
    decreases s.len(),
{
    lemma_dedup_distinct(s);
    if s.len() > 0 {
        let prev = s.drop_last();
        lemma_dedup_params_idents(prev, id);
        let d = dedup_params(prev);
        let p = s.last();
        let nd = dedup_params(s);
        if exists|k: int| 0 <= k < d.len() && d[k].ident == p.ident {
            let k = choose|k: int| 0 <= k < d.len() && d[k].ident == p.ident;
            assert(nd == d.update(k, p));
            if exists|j: int| 0 <= j < s.len() && s[j].ident == id {
                let j = choose|j: int| 0 <= j < s.len() && s[j].ident == id;
                if j < prev.len() {
                    assert(prev[j].ident == id);
                    let m = choose|m: int| 0 <= m < d.len() && d[m].ident == id;
                    if m == k {
                        assert(nd[k].ident == id);
                    } else {
                        assert(nd[m].ident == id);
                    }
                } else {
                    assert(nd[k].ident == id);
                }
            }
            if exists|m: int| 0 <= m < nd.len() && nd[m].ident == id {
                let m = choose|m: int| 0 <= m < nd.len() && nd[m].ident == id;
                if m == k {
                    assert(s[s.len() - 1].ident == id);
                } else {
                    assert(d[m].ident == id);
                    let j = choose|j: int| 0 <= j < prev.len() && prev[j].ident == id;
                    assert(s[j].ident == id);
                }
            }
        } else {
            assert(nd == d.push(p));
            if exists|j: int| 0 <= j < s.len() && s[j].ident == id {
                let j = choose|j: int| 0 <= j < s.len() && s[j].ident == id;
                if j < prev.len() {
                    assert(prev[j].ident == id);
                    let m = choose|m: int| 0 <= m < d.len() && d[m].ident == id;
                    assert(nd[m].ident == id);
                } else {
                    assert(nd[d.len() as int].ident == id);
                }
            }
            if exists|m: int| 0 <= m < nd.len() && nd[m].ident == id {
                let m = choose|m: int| 0 <= m < nd.len() && nd[m].ident == id;
                if m == d.len() {
                    assert(s[s.len() - 1].ident == id);
                } else {
                    assert(d[m].ident == id);
                    let j = choose|j: int| 0 <= j < prev.len() && prev[j].ident == id;
                    assert(s[j].ident == id);
                }
            }
        }
    }
}

} // verus!

verus! {

// ---------------------------------------------------------------------------------------------
// Laws of the walk and of message extraction
// ---------------------------------------------------------------------------------------------

/// Every identifier in `a` also occurs in `b`.
pub open spec fn is_within(a: Seq<Seq<char>>, b: Seq<Seq<char>>) -> bool {
    forall|x: Seq<char>| a.contains(x) ==> b.contains(x)
}

/// The generic arguments written on a path segment (none unless angle-bracketed).
pub open spec fn arguments_of(seg: PathSegmentModel) -> Seq<GenericArgumentModel> {
    match seg.arguments {
        PathArgumentsModel::AngleBracketed(args) => args@,
        _ => Seq::empty(),
    }
}

/// The `k`-th generic argument of a path segment, when it is a type.
pub open spec fn type_argument(seg: PathSegmentModel, k: int) -> Option<TypeModel> {
    if 0 <= k < arguments_of(seg).len() {
        match arguments_of(seg)[k].kind {
            GenericArgumentKind::Type(t) => Some(t),
            _ => None,
        }
    } else {
        None
    }
}

/// An element of a concatenation is an element of one of its parts.
pub proof fn lemma_contains_append<A>(a: Seq<A>, b: Seq<A>)
    ensures
        forall|x: A| #[trigger] (a + b).contains(x) <==> a.contains(x) || b.contains(x),
{
    assert forall|x: A| #[trigger] (a + b).contains(x) <==> a.contains(x) || b.contains(x) by {
        if a.contains(x) {
            let j = choose|j: int| 0 <= j < a.len() && a[j] == x;
            assert((a + b)[j] == x);
        }
        if b.contains(x) {
            let j = choose|j: int| 0 <= j < b.len() && b[j] == x;
            assert((a + b)[a.len() + j] == x);
        }
        if (a + b).contains(x) {
            let j = choose|j: int| 0 <= j < (a + b).len() && (a + b)[j] == x;
            if j < a.len() {
                assert(a[j] == x);
            } else {
                assert(b[j - a.len()] == x);
            }
        }
    }
}

/// The walk over a queue succeeds exactly when the walk from each of its types succeeds, and
/// then it sees exactly what those walks see together: the breadth-first order of the walk
/// loses and adds nothing.
proof fn lemma_walk_queue_union(q: Seq<TypeModel>)
    ensures
        (walk_queue(q).1 is None) <==> (forall|j: int|
            0 <= j < q.len() ==> (#[trigger] walk_type(q[j])).1 is None),
        walk_queue(q).1 is None ==> forall|x: Seq<char>|
            #[trigger] walk_queue(q).0.contains(x) <==> exists|j: int|
                0 <= j < q.len() && (#[trigger] walk_type(q[j])).0.contains(x),
    decreases types_size(q),
{
    if q.len() > 0 {
        let s0 = seq![q[0]];
        assert(s0[0] == q[0]);
        match walk_step(q[0]) {
            WalkStep::Fail(e) => {
                assert(walk_type(q[0]).1 is Some);
            },
            WalkStep::Visit(ids, ch) => {
                lemma_queue_size(q);
                lemma_step_size(q[0]);
                lemma_types_size_append(q.drop_first(), ch);
                let r = q.drop_first() + ch;
                lemma_walk_queue_union(r);
                lemma_walk_queue_union(ch);
                assert(s0.drop_first() + ch =~= ch);
                assert(walk_type(q[0]) == (ids + walk_queue(ch).0, walk_queue(ch).1));
                assert(walk_queue(q) == (ids + walk_queue(r).0, walk_queue(r).1));
                lemma_contains_append(ids, walk_queue(r).0);
                lemma_contains_append(ids, walk_queue(ch).0);
                let n = q.len() - 1;
                assert forall|j: int| 0 <= j < r.len() implies r[j] == if j < n {
                    q[j + 1]
                } else {
                    ch[j - n]
                } by {}
                // Success.
                if walk_queue(q).1 is None {
                    assert forall|j: int| 0 <= j < q.len() implies (#[trigger] walk_type(
                        q[j],
                    )).1 is None by {
                        if j > 0 {
                            assert(r[j - 1] == q[j]);
                        } else {
                            assert forall|k: int| 0 <= k < ch.len() implies (#[trigger] walk_type(
                                ch[k],
                            )).1 is None by {
                                assert(r[n + k] == ch[k]);
                            }
                        }
                    }
                }
                if forall|j: int| 0 <= j < q.len() ==> (#[trigger] walk_type(q[j])).1 is None {
                    assert(walk_type(q[0]).1 is None);
                    assert forall|j: int| 0 <= j < r.len() implies (#[trigger] walk_type(
                        r[j],
                    )).1 is None by {
                        if j < n {
                            assert(walk_type(q[j + 1]).1 is None);
                        } else {
                            assert(walk_type(ch[j - n]).1 is None);
                        }
                    }
                }
                // Contents.
                if walk_queue(q).1 is None {
                    assert forall|x: Seq<char>| #[trigger]
                        walk_queue(q).0.contains(x) implies exists|j: int|
                        0 <= j < q.len() && (#[trigger] walk_type(q[j])).0.contains(x) by {
                        if ids.contains(x) {
                            assert(walk_type(q[0]).0.contains(x));
                        } else {
                            assert(walk_queue(r).0.contains(x));
                            let j = choose|j: int|
                                0 <= j < r.len() && (#[trigger] walk_type(r[j])).0.contains(x);
                            if j < n {
                                assert(walk_type(q[j + 1]).0.contains(x));
                            } else {
                                assert(walk_type(ch[j - n]).0.contains(x));
                                assert(walk_queue(ch).0.contains(x));
                                assert(walk_type(q[0]).0.contains(x));
                            }
                        }
                    }
                    assert forall|x: Seq<char>|
                        (exists|j: int|
                            0 <= j < q.len() && (#[trigger] walk_type(
                                q[j],
                            )).0.contains(x)) implies #[trigger] walk_queue(q).0.contains(x) by {
                        let j = choose|j: int|
                            0 <= j < q.len() && (#[trigger] walk_type(q[j])).0.contains(x);
                        if j > 0 {
                            assert(r[j - 1] == q[j]);
                            assert(walk_type(r[j - 1]).0.contains(x));
                        } else if !ids.contains(x) {
                            assert(walk_queue(ch).0.contains(x));
                            let k = choose|k: int|
                                0 <= k < ch.len() && (#[trigger] walk_type(ch[k])).0.contains(x);
                            assert(r[n + k] == ch[k]);
                            assert(walk_type(r[n + k]).0.contains(x));
                        }
                    }
                }
            },
        }
    }
}


/// The type arguments of a list of generic arguments are exactly those written as types.
proof fn lemma_argument_types_contains(args: Seq<GenericArgumentModel>)
    ensures
        forall|t: TypeModel| #[trigger] argument_types(args).contains(t) <==> exists|k: int|
            0 <= k < args.len() && args[k].kind == GenericArgumentKind::Type(t),
    decreases args.len(),
{
    if args.len() > 0 {
        let prev = args.drop_last();
        lemma_argument_types_contains(prev);
        let tail = match args.last().kind {
            GenericArgumentKind::Type(t) => seq![t],
            _ => Seq::<TypeModel>::empty(),
        };
        lemma_contains_append(argument_types(prev), tail);
        assert forall|t: TypeModel| #[trigger] argument_types(args).contains(t) <==> exists|k: int|
            0 <= k < args.len() && args[k].kind == GenericArgumentKind::Type(t) by {
            if argument_types(args).contains(t) {
                if argument_types(prev).contains(t) {
                    let k = choose|k: int|
                        0 <= k < prev.len() && prev[k].kind == GenericArgumentKind::Type(t);
                    assert(args[k] == prev[k]);
                } else {
                    assert(tail.contains(t));
                    assert(tail[0] == t);
                    assert(args[args.len() - 1] == args.last());
                }
            }
            if exists|k: int| 0 <= k < args.len() && args[k].kind == GenericArgumentKind::Type(t) {
                let k = choose|k: int|
                    0 <= k < args.len() && args[k].kind == GenericArgumentKind::Type(t);
                if k < prev.len() {
                    assert(prev[k] == args[k]);
                } else {
                    assert(args.last() == args[k]);
                    assert(tail[0] == t);
                    assert(tail.contains(t));
                }
            }
        }
    }
}

/// The types that a path queues are exactly the type arguments of its segments.
proof fn lemma_segments_types_contains(s: Seq<PathSegmentModel>)
    ensures
        forall|t: TypeModel| #[trigger] segments_types(s).contains(t) <==> exists|i: int, k: int|
            0 <= i < s.len() && type_argument(s[i], k) == Some(t),
    decreases s.len(),
{
    if s.len() > 0 {
        let prev = s.drop_last();
        lemma_segments_types_contains(prev);
        let last = s.last();
        lemma_argument_types_contains(arguments_of(last));
        assert(segment_types(last) == argument_types(arguments_of(last)));
        lemma_contains_append(segments_types(prev), segment_types(last));
        assert forall|t: TypeModel| #[trigger] segments_types(s).contains(t) <==> exists|
            i: int,
            k: int,
        | 0 <= i < s.len() && type_argument(s[i], k) == Some(t) by {
            if segments_types(s).contains(t) {
                if segments_types(prev).contains(t) {
                    let (i, k) = choose|i: int, k: int|
                        0 <= i < prev.len() && type_argument(prev[i], k) == Some(t);
                    assert(s[i] == prev[i]);
                } else {
                    let k = choose|k: int|
                        0 <= k < arguments_of(last).len() && arguments_of(last)[k].kind
                            == GenericArgumentKind::Type(t);
                    assert(s[s.len() - 1] == last);
                    assert(type_argument(s[s.len() - 1], k) == Some(t));
                }
            }
            if exists|i: int, k: int| 0 <= i < s.len() && type_argument(s[i], k) == Some(t) {
                let (i, k) = choose|i: int, k: int|
                    0 <= i < s.len() && type_argument(s[i], k) == Some(t);
                if i < prev.len() {
                    assert(prev[i] == s[i]);
                    assert(segments_types(prev).contains(t));
                } else {
                    assert(s[i] == last);
                    assert(arguments_of(last)[k].kind == GenericArgumentKind::Type(t));
                    assert(argument_types(arguments_of(last)).contains(t));
                }
            }
        }
    }
}

/// The walk from a path type, as for `T::Item` or `Vec<T>`, records the identifier of every
/// segment of the path, however many there are. When the walk succeeds, the walk from each
/// type argument of any segment succeeds too and everything it records is recorded; and
/// nothing else is recorded.
pub proof fn lemma_walk_path_records(p: TypePathModel)
    ensures
        forall|i: int|
            0 <= i < p.path.segments@.len() ==> walk_type(TypeModel::Path(p)).0.contains(
                #[trigger] p.path.segments@[i].ident@,
            ),
        walk_type(TypeModel::Path(p)).1 is None ==> forall|i: int, k: int|
            0 <= i < p.path.segments@.len() && (#[trigger] type_argument(
                p.path.segments@[i],
                k,
            )) is Some ==> {
                let t = type_argument(p.path.segments@[i], k)->Some_0;
                &&& walk_type(t).1 is None
                &&& is_within(walk_type(t).0, walk_type(TypeModel::Path(p)).0)
            },
        walk_type(TypeModel::Path(p)).1 is None ==> forall|x: Seq<char>|
            #[trigger] walk_type(TypeModel::Path(p)).0.contains(x) ==> (exists|i: int|
                0 <= i < p.path.segments@.len() && p.path.segments@[i].ident@ == x) || (exists|
                i: int,
                k: int,
            |
                0 <= i < p.path.segments@.len() && (#[trigger] type_argument(
                    p.path.segments@[i],
                    k,
                )) is Some && walk_type(type_argument(p.path.segments@[i], k)->Some_0).0.contains(
                    x,
                )),
{
    let segs = p.path.segments@;
    let t0 = TypeModel::Path(p);
    let s0 = seq![t0];
    let ids = segment_idents(segs);
    let ch = segments_types(segs);
    assert(s0[0] == t0);
    assert(s0.drop_first() + ch =~= ch);
    lemma_queue_size(s0);
    lemma_step_size(t0);
    assert(walk_type(t0) == (ids + walk_queue(ch).0, walk_queue(ch).1));
    lemma_contains_append(ids, walk_queue(ch).0);
    assert forall|i: int| 0 <= i < segs.len() implies walk_type(t0).0.contains(
        #[trigger] segs[i].ident@,
    ) by {
        assert(ids[i] == segs[i].ident@);
        assert(ids.contains(segs[i].ident@));
    }
    lemma_walk_queue_union(ch);
    lemma_segments_types_contains(segs);
    if walk_type(t0).1 is None {
        assert forall|i: int, k: int|
            0 <= i < segs.len() && (#[trigger] type_argument(segs[i], k)) is Some implies {
            let t = type_argument(segs[i], k)->Some_0;
            &&& walk_type(t).1 is None
            &&& is_within(walk_type(t).0, walk_type(t0).0)
        } by {
            let t = type_argument(segs[i], k)->Some_0;
            assert(ch.contains(t));
            let j = choose|j: int| 0 <= j < ch.len() && ch[j] == t;
            assert(walk_type(ch[j]).1 is None);
            assert forall|x: Seq<char>| walk_type(t).0.contains(x) implies walk_type(
                t0,
            ).0.contains(x) by {
                assert(walk_type(ch[j]).0.contains(x));
                assert(walk_queue(ch).0.contains(x));
            }
        }
        assert forall|x: Seq<char>| #[trigger] walk_type(t0).0.contains(x) implies (exists|i: int|
            0 <= i < segs.len() && segs[i].ident@ == x) || (exists|i: int, k: int|
            0 <= i < segs.len() && (#[trigger] type_argument(segs[i], k)) is Some && walk_type(
                type_argument(segs[i], k)->Some_0,
            ).0.contains(x)) by {
            if ids.contains(x) {
                let i = choose|i: int| 0 <= i < ids.len() && ids[i] == x;
                assert(segs[i].ident@ == x);
            } else {
                assert(walk_queue(ch).0.contains(x));
                let j = choose|j: int| 0 <= j < ch.len() && (#[trigger] walk_type(ch[j])).0.contains(x);
                assert(ch.contains(ch[j]));
                let (i, k) = choose|i: int, k: int|
                    0 <= i < segs.len() && type_argument(segs[i], k) == Some(ch[j]);
                assert(type_argument(segs[i], k) is Some);
            }
        }
    }
}


/// Checking generic arguments succeeds exactly when checking each of them succeeds, and then
/// it sees exactly what those checks see together.
proof fn lemma_check_generics_union(args: Seq<GenericArgumentModel>)
    ensures
        (check_generics(args).1 is None) <==> (forall|k: int|
            0 <= k < args.len() ==> (#[trigger] check_generic(args[k])).1 is None),
        check_generics(args).1 is None ==> forall|x: Seq<char>|
            #[trigger] check_generics(args).0.contains(x) <==> exists|k: int|
                0 <= k < args.len() && (#[trigger] check_generic(args[k])).0.contains(x),
    decreases args.len(),
{
    if args.len() > 0 {
        let prev = args.drop_last();
        let n: int = prev.len() as int;
        lemma_check_generics_union(prev);
        assert(args[n] == args.last());
        assert forall|k: int| 0 <= k < n implies prev[k] == args[k] by {}
        if check_generics(prev).1 is None {
            let c = check_generic(args.last());
            lemma_contains_append(check_generics(prev).0, c.0);
            if check_generics(args).1 is None {
                assert forall|x: Seq<char>| #[trigger] check_generics(args).0.contains(x) implies exists|
                    k: int,
                | 0 <= k < args.len() && (#[trigger] check_generic(args[k])).0.contains(x) by {
                    if check_generics(prev).0.contains(x) {
                        let k = choose|k: int|
                            0 <= k < n && (#[trigger] check_generic(prev[k])).0.contains(x);
                        assert(check_generic(args[k]).0.contains(x));
                    } else {
                        assert(check_generic(args[n]).0.contains(x));
                    }
                }
                assert forall|x: Seq<char>|
                    (exists|k: int|
                        0 <= k < args.len() && (#[trigger] check_generic(
                            args[k],
                        )).0.contains(x)) implies #[trigger] check_generics(args).0.contains(x) by {
                    let k = choose|k: int|
                        0 <= k < args.len() && (#[trigger] check_generic(args[k])).0.contains(x);
                    if k < n {
                        assert(check_generic(prev[k]).0.contains(x));
                    }
                }
            }
        } else {
            let k = choose|k: int| 0 <= k < n && (#[trigger] check_generic(prev[k])).1 is Some;
            assert(check_generic(args[k]).1 is Some);
        }
    }
}

/// Reading a message's identifier off its type, as for `Insert<K, V>`, walks every type
/// argument of the type's first segment. On success the identifier is that segment's,
/// every argument is a type whose walk succeeds, everything each of those walks records is
/// recorded, and nothing else is.
pub proof fn lemma_message_ident_walks_every_argument(path: TypePathModel)
    ensures
        message_ident_outcome(path).1 is Ok ==> path.path.segments@.len() > 0
            && message_ident_outcome(path).1 == Ok::<Seq<char>, ErrorView>(
            path.path.segments@[0].ident@,
        ),
        message_ident_outcome(path).1 is Ok ==> forall|k: int|
            0 <= k < arguments_of(path.path.segments@[0]).len() ==> (#[trigger] type_argument(
                path.path.segments@[0],
                k,
            )) is Some,
        message_ident_outcome(path).1 is Ok ==> forall|k: int|
            (#[trigger] type_argument(path.path.segments@[0], k)) is Some ==> {
                let t = type_argument(path.path.segments@[0], k)->Some_0;
                &&& walk_type(t).1 is None
                &&& is_within(walk_type(t).0, message_ident_outcome(path).0)
            },
        message_ident_outcome(path).1 is Ok ==> forall|x: Seq<char>|
            #[trigger] message_ident_outcome(path).0.contains(x) ==> exists|k: int|
                (#[trigger] type_argument(path.path.segments@[0], k)) is Some && walk_type(
                    type_argument(path.path.segments@[0], k)->Some_0,
                ).0.contains(x),
{
    if message_ident_outcome(path).1 is Ok {
        let seg = path.path.segments@[0];
        let args = arguments_of(seg);
        let o = message_ident_outcome(path);
        lemma_check_generics_union(args);
        assert(o.0 == check_generics(args).0);
        assert(check_generics(args).1 is None);
        assert forall|k: int| 0 <= k < args.len() implies (#[trigger] type_argument(seg, k)) is Some by {
            assert(check_generic(args[k]).1 is None);
        }
        assert forall|k: int| (#[trigger] type_argument(seg, k)) is Some implies {
            let t = type_argument(seg, k)->Some_0;
            &&& walk_type(t).1 is None
            &&& is_within(walk_type(t).0, o.0)
        } by {
            let t = type_argument(seg, k)->Some_0;
            assert(check_generic(args[k]) == walk_type(t));
            assert forall|x: Seq<char>| walk_type(t).0.contains(x) implies o.0.contains(x) by {
                assert(check_generic(args[k]).0.contains(x));
                assert(check_generics(args).0.contains(x));
            }
        }
        assert forall|x: Seq<char>| #[trigger] o.0.contains(x) implies exists|k: int|
            (#[trigger] type_argument(seg, k)) is Some && walk_type(
                type_argument(seg, k)->Some_0,
            ).0.contains(x) by {
            assert(check_generics(args).0.contains(x));
            let k = choose|k: int|
                0 <= k < args.len() && (#[trigger] check_generic(args[k])).0.contains(x);
            assert(check_generic(args[k]).1 is None);
            assert(type_argument(seg, k) is Some);
        }
    }
}


/// Everything recorded in `a` stays recorded when more is seen after it.
pub proof fn lemma_within_append(a: Seq<Seq<char>>, b: Seq<Seq<char>>, c: Seq<Seq<char>>)
    requires
        is_within(a, b),
    ensures
        is_within(a, b + c),
        is_within(c, b + c),
{
    lemma_contains_append(b, c);
}

/// Argument `a` takes a message: its type is the path with node `ty`, the message's
/// identifier reads as `ident` off it, and everything that reading it records is in `seen`.
pub open spec fn arg_message(a: FnArgModel, ident: Seq<char>, ty: usize, seen: Seq<Seq<char>>) -> bool {
    match a {
        FnArgModel::Typed { ty: TypeModel::Path(p), .. } => {
            &&& p.node == ty
            &&& message_ident_outcome(p).1 == Ok::<Seq<char>, ErrorView>(ident)
            &&& is_within(message_ident_outcome(p).0, seen)
        },
        _ => false,
    }
}

/// Argument `a` takes the reply handle.
pub open spec fn arg_reply(a: FnArgModel) -> bool {
    match a {
        FnArgModel::Typed { ty: TypeModel::Path(p), .. } => reply_outcome(p) == Ok::<bool, ErrorView>(true),
        _ => false,
    }
}

/// Reading argument `a` as a message records `x`.
pub open spec fn arg_reads(a: FnArgModel, x: Seq<char>) -> bool {
    match a {
        FnArgModel::Typed { ty: TypeModel::Path(p), .. } => message_ident_outcome(p).0.contains(x),
        _ => false,
    }
}

/// Where a reply handle at position `j` after the receiver stands.
pub open spec fn order_at(j: int) -> ArgOrder {
    if j == 0 {
        ArgOrder::First
    } else {
        ArgOrder::Second
    }
}

/// What the scan has found so far is backed by the arguments: the message by an argument
/// that is not a reply handle and whose reading is all seen, the reply by a reply handle.
spec fn scan_backed(args: Seq<FnArgModel>, st: ScanState) -> bool {
    &&& (st.message is Some ==> exists|j: int|
        0 <= j < args.len() && !arg_reply(args[j]) && #[trigger] arg_message(
            args[j],
            st.message->Some_0.0,
            st.message->Some_0.1,
            st.seen,
        ))
    &&& (st.reply is Some ==> exists|j: int|
        0 <= j < args.len() && #[trigger] arg_reply(args[j]) && st.reply->Some_0 == order_at(j))
    &&& forall|x: Seq<char>|
        #[trigger] st.seen.contains(x) ==> exists|j: int|
            0 <= j < args.len() && !arg_reply(args[j]) && #[trigger] arg_reads(args[j], x)
}

proof fn lemma_scan_backed(args: Seq<FnArgModel>, pos: int, st: ScanState, node: usize)
    requires
        0 <= pos,
        scan_backed(args, st),
    ensures
        scan_backed(args, scan(args, pos, st, node).0),
    decreases args.len() - pos,
{
    if pos < args.len() {
        match args[pos] {
            FnArgModel::Typed { ty, .. } => match ty {
                TypeModel::Path(p) => match reply_outcome(p) {
                    Err(e) => {},
                    Ok(true) => {
                        let st2 = ScanState { reply: Some(order_at(pos)), ..st };
                        assert(arg_reply(args[pos]));
                        if let Some((id, n)) = st.message {
                            let j = choose|j: int|
                                0 <= j < args.len() && !arg_reply(args[j]) && #[trigger] arg_message(
                                    args[j],
                                    id,
                                    n,
                                    st.seen,
                                );
                            assert(arg_message(args[j], id, n, st2.seen));
                        }
                        assert(scan_backed(args, st2));
                        lemma_scan_backed(args, pos + 1, st2, node);
                    },
                    Ok(false) => {
                        let o = message_ident_outcome(p);
                        let st2 = ScanState { seen: st.seen + o.0, ..st };
                        lemma_contains_append(st.seen, o.0);
                        assert(!arg_reply(args[pos]));
                        assert forall|x: Seq<char>| #[trigger] st2.seen.contains(x) implies exists|j: int|
                            0 <= j < args.len() && !arg_reply(args[j]) && #[trigger] arg_reads(args[j], x) by {
                            if !st.seen.contains(x) {
                                assert(arg_reads(args[pos], x));
                            }
                        }
                        if let Some((id, n)) = st.message {
                            let j = choose|j: int|
                                0 <= j < args.len() && !arg_reply(args[j]) && #[trigger] arg_message(
                                    args[j],
                                    id,
                                    n,
                                    st.seen,
                                );
                            match args[j] {
                                FnArgModel::Typed { ty: TypeModel::Path(q), .. } => {
                                    lemma_within_append(message_ident_outcome(q).0, st.seen, o.0);
                                },
                                _ => {},
                            }
                            assert(arg_message(args[j], id, n, st2.seen));
                        }
                        assert(scan_backed(args, st2));
                        match o.1 {
                            Err(e) => {},
                            Ok(id) => {
                                let st3 = ScanState { message: Some((id, p.node)), ..st2 };
                                assert forall|x: Seq<char>| o.0.contains(x) implies st2.seen.contains(x) by {}
                                assert(!arg_reply(args[pos]));
                                assert(arg_message(args[pos], id, p.node, st3.seen));
                                assert(st3.message == Some((id, p.node)));
                                assert(exists|j: int|
                                    0 <= j < args.len() && !arg_reply(args[j]) && #[trigger] arg_message(args[j], id, p.node, st3.seen));
                                assert(st3.reply == st.reply);
                                assert(st3.message->Some_0.0 == id);
                                assert(st3.message->Some_0.1 == p.node);
                                assert(st3.seen == st2.seen);
                                assert(st3.reply is Some ==> exists|j: int|
                                    0 <= j < args.len() && #[trigger] arg_reply(args[j]) && st3.reply->Some_0 == order_at(j));
                                assert(st3.message is Some ==> exists|j: int|
                                    0 <= j < args.len() && !arg_reply(args[j]) && #[trigger] arg_message(
                                        args[j],
                                        st3.message->Some_0.0,
                                        st3.message->Some_0.1,
                                        st3.seen,
                                    ));
                                assert(scan_backed(args, st3));
                                lemma_scan_backed(args, pos + 1, st3, node);
                            },
                        }
                    },
                },
                _ => {},
            },
            _ => {},
        }
    }
}

/// Argument `j` of `method`, after its receiver, takes its message as `arg_message` says.
pub open spec fn message_argument_at(method: MethodModel, j: int, ident: Seq<char>, ty: usize, seen: Seq<Seq<char>>) -> bool {
    1 <= j < method.inputs@.len() && arg_message(method.inputs@[j], ident, ty, seen)
}

/// The message that a handler's extraction finds, of either kind, is read off one of the
/// handler's arguments, and everything that reading it records (the type parameters its
/// generic arguments use) is recorded by the extraction. A `#[puppet]` handler's message is
/// its first argument and it has no reply handle. A `#[puppet_with_reply]` handler's message
/// is an argument that is not the reply handle, and the reply handle stands where the
/// result says.
pub proof fn lemma_extracted_message_is_walked(method: MethodModel, kind: HandlerKind)
    ensures
        extract_outcome(method, kind).1 matches Ok(x) ==> exists|j: int|
            #[trigger] message_argument_at(method, j, x.ident, x.ty, extract_outcome(method, kind).0),
        extract_outcome(method, kind).1 is Ok ==> method.inputs@.len() <= expected_count(kind),
        forall|x: Seq<char>|
            #[trigger] extract_outcome(method, kind).0.contains(x) ==> exists|j: int|
                1 <= j < method.inputs@.len() && #[trigger] arg_reads(method.inputs@[j], x) && (kind
                    == HandlerKind::WithReply ==> !arg_reply(method.inputs@[j])) && (kind
                    == HandlerKind::Direct ==> j == 1),
        kind == HandlerKind::Direct ==> (extract_outcome(method, kind).1 matches Ok(x) ==> {
            &&& x.reply is None
            &&& message_argument_at(method, 1, x.ident, x.ty, extract_outcome(method, kind).0)
        }),
        kind == HandlerKind::WithReply ==> (extract_outcome(method, kind).1 matches Ok(x) ==> {
            &&& x.reply is Some
            &&& (exists|j: int| 1 <= j <= 2 && #[trigger] message_argument_at(method, j, x.ident, x.ty, extract_outcome(method, kind).0) && !arg_reply(method.inputs@[j]))
            &&& 1 + if x.reply == Some(ArgOrder::First) { 0int } else { 1int } < method.inputs@.len()
            &&& arg_reply(method.inputs@[1 + if x.reply == Some(ArgOrder::First) { 0int } else { 1int }])
        }),
{
    let inputs = method.inputs@;
    if inputs.len() <= expected_count(kind) && kind == HandlerKind::WithReply {
        let args = reply_candidates(inputs);
        let init = ScanState { seen: Seq::empty(), message: None, reply: None };
        lemma_scan_backed(args, 0, init, method.node);
        let r = scan(args, 0, init, method.node);
        assert forall|k: int| 0 <= k < args.len() implies args[k] == inputs[k + 1] by {}
        assert(extract_outcome(method, kind).0 == r.0.seen);
        assert forall|x: Seq<char>| #[trigger] extract_outcome(method, kind).0.contains(x) implies exists|j: int|
            1 <= j < inputs.len() && #[trigger] arg_reads(inputs[j], x) && (kind
                == HandlerKind::WithReply ==> !arg_reply(inputs[j])) && (kind
                == HandlerKind::Direct ==> j == 1) by {
            let j = choose|j: int|
                0 <= j < args.len() && !arg_reply(args[j]) && #[trigger] arg_reads(args[j], x);
            assert(arg_reads(inputs[j + 1], x));
        }
    }
    if kind == HandlerKind::Direct {
        assert forall|x: Seq<char>| #[trigger] extract_outcome(method, kind).0.contains(x) implies exists|j: int|
            1 <= j < inputs.len() && #[trigger] arg_reads(inputs[j], x) && (kind
                == HandlerKind::WithReply ==> !arg_reply(inputs[j])) && (kind
                == HandlerKind::Direct ==> j == 1) by {
            assert(arg_reads(inputs[1], x));
        }
    }
    if extract_outcome(method, kind).1 is Ok {
        if kind == HandlerKind::Direct {
            let p = inputs[1]->ty->Path_0;
            assert(message_argument_at(method, 1, extract_outcome(method, kind).1->Ok_0.ident, extract_outcome(method, kind).1->Ok_0.ty, extract_outcome(method, kind).0));
        } else {
            let args = reply_candidates(inputs);
            let init = ScanState { seen: Seq::empty(), message: None, reply: None };
            lemma_scan_backed(args, 0, init, method.node);
            let r = scan(args, 0, init, method.node);
            let x = extract_outcome(method, kind).1->Ok_0;
            assert(args.len() <= 2);
            assert forall|k: int| 0 <= k < args.len() implies args[k] == inputs[k + 1] by {}
            let (id, ty) = r.0.message->Some_0;
            let j = choose|j: int|
                0 <= j < args.len() && !arg_reply(args[j]) && #[trigger] arg_message(
                    args[j],
                    r.0.message->Some_0.0,
                    r.0.message->Some_0.1,
                    r.0.seen,
                );
            assert(message_argument_at(method, j + 1, x.ident, x.ty, extract_outcome(method, kind).0));
            let k = choose|k: int|
                0 <= k < args.len() && #[trigger] arg_reply(args[k]) && r.0.reply->Some_0 == order_at(k);
            assert(arg_reply(inputs[k + 1]));
        }
    }
}


/// The walk from a type that the walk visits: what the visit records, then the walk over
/// what it queues.
proof fn lemma_walk_type_visit(t: TypeModel)
    requires
        walk_step(t) is Visit,
    ensures
        walk_type(t) == (walk_step(t)->Visit_0 + walk_queue(walk_step(t)->Visit_1).0, walk_queue(
            walk_step(t)->Visit_1,
        ).1),
{
    let s0 = seq![t];
    assert(s0[0] == t);
    assert(s0.drop_first() + walk_step(t)->Visit_1 =~= walk_step(t)->Visit_1);
}

/// `w` is what walking all of `ts` together gives: it succeeds exactly when the walk from each
/// of them succeeds, and then records exactly what those walks record.
pub open spec fn walk_of_all(ts: Seq<TypeModel>, w: (Seq<Seq<char>>, Option<ErrorView>)) -> bool {
    &&& (w.1 is None <==> forall|j: int| 0 <= j < ts.len() ==> (#[trigger] walk_type(ts[j])).1 is None)
    &&& (w.1 is None ==> forall|x: Seq<char>|
        #[trigger] w.0.contains(x) <==> exists|j: int|
            0 <= j < ts.len() && (#[trigger] walk_type(ts[j])).0.contains(x))
}

/// The walk from a type is the walk of what the type is made of. An array, group,
/// parenthesised or pointer type, or a reference without a lifetime or with `'static`,
/// walks exactly as its element; a reference with another lifetime fails at that lifetime.
/// A tuple walks all its elements; a function pointer whose lifetimes are all `'static`
/// walks its inputs and output, and otherwise fails at the first other lifetime. `!`, trait
/// objects and verbatim types record nothing and succeed; `impl Trait`, `_`, macros and
/// slices fail where they stand.
pub proof fn lemma_walk_type_structure(t: TypeModel)
    ensures
        match t {
            TypeModel::Array { elem, .. } => walk_type(t) == walk_type(*elem),
            TypeModel::Group { elem, .. } => walk_type(t) == walk_type(*elem),
            TypeModel::Paren { elem, .. } => walk_type(t) == walk_type(*elem),
            TypeModel::Ptr { elem, .. } => walk_type(t) == walk_type(*elem),
            TypeModel::Reference { lifetime, elem, .. } => match lifetime {
                Some(lt) => if is_static(lt) {
                    walk_type(t) == walk_type(*elem)
                } else {
                    walk_type(t).1 == Some(error_view(lt.node, msg_non_static_lifetime()))
                },
                None => walk_type(t) == walk_type(*elem),
            },
            TypeModel::Tuple { elems, .. } => walk_of_all(elems@, walk_type(t)),
            TypeModel::BareFn { lifetimes, inputs, output, .. } => match first_non_static(
                lifetimes@,
            ) {
                Some(lt) => walk_type(t).1 == Some(error_view(lt.node, msg_non_static_lifetime())),
                None => walk_of_all(
                    inputs@ + match output {
                        Some(o) => seq![*o],
                        None => Seq::empty(),
                    },
                    walk_type(t),
                ),
            },
            TypeModel::Never { .. } => walk_type(t) == (Seq::<Seq<char>>::empty(), None::<ErrorView>),
            TypeModel::TraitObject { .. } => walk_type(t) == (Seq::<Seq<char>>::empty(), None::<ErrorView>),
            TypeModel::Verbatim { .. } => walk_type(t) == (Seq::<Seq<char>>::empty(), None::<ErrorView>),
            TypeModel::ImplTrait { node } => walk_type(t).1 == Some(error_view(node, msg_impl_trait())),
            TypeModel::Infer { node } => walk_type(t).1 == Some(error_view(node, msg_inferred())),
            TypeModel::Macro { node } => walk_type(t).1 == Some(error_view(node, msg_macro())),
            TypeModel::Slice { node } => walk_type(t).1 == Some(error_view(node, msg_slice())),
            TypeModel::Path(_) => true,
        },
{
    let s0 = seq![t];
    assert(s0[0] == t);
    if walk_step(t) is Visit {
        lemma_walk_type_visit(t);
        let ids = walk_step(t)->Visit_0;
        let ch = walk_step(t)->Visit_1;
        lemma_walk_queue_union(ch);
        match t {
            TypeModel::Path(_) => {},
            _ => {
                assert(ids =~= Seq::<Seq<char>>::empty());
                assert(ids + walk_queue(ch).0 =~= walk_queue(ch).0);
                match t {
                    TypeModel::Array { elem, .. } => {},
                    TypeModel::Group { elem, .. } => {},
                    TypeModel::Paren { elem, .. } => {},
                    TypeModel::Ptr { elem, .. } => {},
                    TypeModel::Reference { .. } => {},
                    _ => {},
                }
            },
        }
    }
}

} // verus!
