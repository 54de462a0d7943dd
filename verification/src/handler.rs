//! Finding the message handlers of an actor `impl` block.
use crate::errors::{
    error_at, error_view, msg_not_async, msg_not_ref_self, msg_reply_returns_value, ErrorView,
    MacroError,
};
use crate::generics_processor::{
    create_generic_builder, dedup_params, entry_views, extract_message, extract_outcome,
    is_within, lemma_contains_append, lemma_within_append,
    lemma_insert_idents_append, lemma_insert_no_idents, param_views, Extract, ExtractView,
    GenericBuilder, GenericBuilderView, ProcessedGenerics, WhereEntryView,
};
use crate::model::{
    AttributeModel, FnArgModel, ImplItemModel, MethodModel, PathArgumentsModel, PathModel,
    TypeParamView,
};
use vstd::prelude::*;
use vstd::string::*;

verus! {

/// The kind of message handler, chosen by its attribute.
#[derive(Debug, Clone, Copy, PartialEq, Eq, Structural)]
pub enum HandlerKind {
    /// `#[puppet]`: takes the message and returns the response.
    Direct,
    /// `#[puppet_with_reply]`: takes the message and a reply handle, returns nothing.
    WithReply,
}

/// The largest number of inputs, the receiver included, that a handler of `kind` takes.
pub open spec fn expected_count(kind: HandlerKind) -> nat {
    match kind {
        HandlerKind::Direct => 2,
        HandlerKind::WithReply => 3,
    }
}

impl HandlerKind {
    /// The largest number of inputs, the receiver included, that a handler of this kind takes.
    pub fn expected_argument_count(&self) -> (n: usize)
        ensures
            n == expected_count(*self),
    {
        match self {
            Self::Direct => 2,
            Self::WithReply => 3,
        }
    }
}

} // verus!

verus! {

/// Whether a path is the single identifier `name`: no leading `::`, one segment, no
/// arguments.
pub open spec fn path_is_ident(p: PathModel, name: Seq<char>) -> bool {
    &&& !p.leading_colon
    &&& p.segments@.len() == 1
    &&& p.segments@[0].arguments is Empty
    &&& p.segments@[0].ident@ == name
}

/// The handler kind that one attribute marks, if any.
pub open spec fn attr_kind(a: AttributeModel) -> Option<HandlerKind> {
    if path_is_ident(a.path, "puppet"@) {
        Some(HandlerKind::Direct)
    } else if path_is_ident(a.path, "puppet_with_reply"@) {
        Some(HandlerKind::WithReply)
    } else {
        None
    }
}

/// The kind marked by the first handler attribute in a list of attributes.
pub open spec fn first_kind(attrs: Seq<AttributeModel>) -> Option<HandlerKind>
    decreases attrs.len(),
{
    if attrs.len() == 0 {
        None
    } else {
        match first_kind(attrs.drop_last()) {
            Some(k) => Some(k),
            None => attr_kind(attrs.last()),
        }
    }
}

/// The kind of handler that an item is, if it is a handler.
pub open spec fn handler_kind(item: ImplItemModel) -> Option<HandlerKind> {
    match item {
        ImplItemModel::Method(m) => first_kind(m.attrs@),
        ImplItemModel::Other { .. } => None,
    }
}

/// The attributes that are not handler attributes, in order.
pub open spec fn strip_attrs(attrs: Seq<AttributeModel>) -> Seq<AttributeModel>
    decreases attrs.len(),
{
    if attrs.len() == 0 {
        Seq::empty()
    } else {
        strip_attrs(attrs.drop_last()) + if attr_kind(attrs.last()) is None {
            seq![attrs.last()]
        } else {
            Seq::empty()
        }
    }
}

/// `new` is `old` with its handler attributes removed, and nothing else changed.
pub open spec fn stripped_from(new: ImplItemModel, old: ImplItemModel) -> bool {
    match (new, old) {
        (ImplItemModel::Method(n), ImplItemModel::Method(o)) => {
            &&& n.attrs@ == strip_attrs(o.attrs@)
            &&& n.node == o.node
            &&& n.sig_node == o.sig_node
            &&& n.output_node == o.output_node
            &&& n.is_async == o.is_async
            &&& n.ident == o.ident
            &&& n.inputs == o.inputs
            &&& n.returns_value == o.returns_value
        },
        (ImplItemModel::Other { node: n }, ImplItemModel::Other { node: o }) => n == o,
        _ => false,
    }
}

/// Whether a method's receiver is `&self` or `&mut self`.
pub open spec fn ref_self(m: MethodModel) -> bool {
    m.inputs@.len() > 0 && (m.inputs@[0] matches FnArgModel::Receiver { reference, .. }
        && reference)
}

/// The kind of handler an attribute marks.
fn attribute_kind(attr: &AttributeModel) -> (r: Option<HandlerKind>)
    ensures
        r == attr_kind(*attr),
{
    let path = &attr.path;
    if !path.leading_colon && path.segments.len() == 1 {
        let seg = &path.segments[0];
        if let PathArgumentsModel::Empty = seg.arguments {
            let direct = String::from_str("puppet");
            if seg.ident == direct {
                return Some(HandlerKind::Direct);
            }
            let with_reply = String::from_str("puppet_with_reply");
            if seg.ident == with_reply {
                return Some(HandlerKind::WithReply);
            }
        }
    }
    None
}

/// Tells whether an item is a message handler, by the first `#[puppet]` or
/// `#[puppet_with_reply]` attribute of a method.
pub fn is_puppet_handler(tokens: &ImplItemModel) -> (r: Option<HandlerKind>)
    ensures
        r == handler_kind(*tokens),
{
    if let ImplItemModel::Method(method) = tokens {
        let mut i: usize = 0;
        while i < method.attrs.len()
            invariant
                0 <= i <= method.attrs@.len(),
                handler_kind(*tokens) == first_kind(method.attrs@),
                first_kind(method.attrs@.take(i as int)) is None,
            decreases method.attrs@.len() - i,
        {
            let kind = attribute_kind(&method.attrs[i]);
            proof {
                assert(method.attrs@.take(i + 1).drop_last() =~= method.attrs@.take(i as int));
                assert(method.attrs@.take(i + 1).last() == method.attrs@[i as int]);
            }
            if kind.is_some() {
                proof {
                    lemma_first_kind_prefix(method.attrs@, i as int + 1);
                }
                return kind;
            }
            i = i + 1;
        }
        proof {
            assert(method.attrs@.take(method.attrs@.len() as int) =~= method.attrs@);
        }
    }
    None
}

/// Once a prefix of the attributes marks a handler, later attributes do not matter.
proof fn lemma_first_kind_prefix(s: Seq<AttributeModel>, n: int)
    requires
        0 <= n <= s.len(),
        first_kind(s.take(n)) is Some,
    ensures
        first_kind(s) == first_kind(s.take(n)),
    decreases s.len() - n,
{
    if n < s.len() {
        assert(s.take(n + 1).drop_last() =~= s.take(n));
        lemma_first_kind_prefix(s, n + 1);
    } else {
        assert(s.take(n) =~= s);
    }
}

/// Removes the handler attributes from a method; other items are returned unchanged.
pub fn remove_puppet_handler(tokens: ImplItemModel) -> (r: ImplItemModel)
    ensures
        stripped_from(r, tokens),
{
    match tokens {
        ImplItemModel::Method(method) => {
            let MethodModel {
                node,
                sig_node,
                output_node,
                attrs,
                is_async,
                ident,
                inputs,
                returns_value,
            } = method;
            let ghost initial = attrs@;
            let mut rest = attrs;
            proof {
                assert(initial.len() == rest.len());
            }
            let mut kept: Vec<AttributeModel> = Vec::new();
            let mut i: usize = 0;
            proof {
                assert(initial.skip(0) =~= initial);
                assert(strip_attrs(initial.take(0)) =~= Seq::<AttributeModel>::empty());
            }
            while rest.len() > 0
                invariant
                    0 <= i <= initial.len(),
                    initial.len() <= usize::MAX,
                    rest@ == initial.skip(i as int),
                    kept@ == strip_attrs(initial.take(i as int)),
                decreases rest@.len(),
            {
                let attr = rest.remove(0);
                proof {
                    assert(attr == initial[i as int]);
                    assert(initial.take(i + 1).drop_last() =~= initial.take(i as int));
                    assert(initial.take(i + 1).last() == attr);
                    assert(rest@ =~= initial.skip(i + 1));
                }
                if attribute_kind(&attr).is_none() {
                    kept.push(attr);
                } else {
                    proof {
                        assert(strip_attrs(initial.take(i + 1)) =~= strip_attrs(
                            initial.take(i as int),
                        ));
                    }
                }
                i = i + 1;
            }
            proof {
                assert(initial.take(i as int) =~= initial);
            }
            ImplItemModel::Method(
                MethodModel {
                    node,
                    sig_node,
                    output_node,
                    attrs: kept,
                    is_async,
                    ident,
                    inputs,
                    returns_value,
                },
            )
        },
        other => other,
    }
}

/// Whether a method takes `&self` or `&mut self`.
pub fn is_ref_self(method: &MethodModel) -> (r: bool)
    ensures
        r == ref_self(*method),
{
    if method.inputs.len() > 0 {
        if let FnArgModel::Receiver { reference, .. } = &method.inputs[0] {
            return *reference;
        }
    }
    false
}

} // verus!

verus! {

/// The diagnostic for a handler method whose signature a handler cannot have, if any.
pub open spec fn handler_error(item: ImplItemModel) -> Option<ErrorView> {
    match item {
        ImplItemModel::Method(m) => match first_kind(m.attrs@) {
            Some(kind) => if kind == HandlerKind::WithReply && m.returns_value {
                Some(error_view(m.output_node, msg_reply_returns_value()))
            } else if !m.is_async {
                Some(error_view(m.sig_node, msg_not_async()))
            } else {
                None
            },
            None => None,
        },
        ImplItemModel::Other { .. } => None,
    }
}

/// The handlers among the items, by position, with their kinds, in order.
pub open spec fn handler_positions(items: Seq<ImplItemModel>) -> Seq<(usize, HandlerKind)>
    decreases items.len(),
{
    if items.len() == 0 {
        Seq::empty()
    } else {
        handler_positions(items.drop_last()) + match handler_kind(items.last()) {
            Some(k) => seq![((items.len() - 1) as usize, k)],
            None => Seq::empty(),
        }
    }
}

/// None of the first `n` items is a handler with a signature a handler cannot have.
pub open spec fn handlers_ok(items: Seq<ImplItemModel>, n: int) -> bool {
    forall|i: int| 0 <= i < n ==> handler_error(#[trigger] items[i]) is None
}

/// The first `n` items of `new` are those of `old` with their handler attributes removed.
pub open spec fn stripped_prefix_of(new: Seq<ImplItemModel>, old: Seq<ImplItemModel>, n: int) -> bool {
    forall|i: int| 0 <= i < n ==> stripped_from(#[trigger] new[i], old[i])
}

/// Every handler position is an item of that kind.
pub proof fn lemma_handler_positions(items: Seq<ImplItemModel>)
    requires
        items.len() <= usize::MAX,
    ensures
        forall|k: int|
            0 <= k < handler_positions(items).len() ==> {
                let (pos, kind) = #[trigger] handler_positions(items)[k];
                &&& pos < items.len()
                &&& handler_kind(items[pos as int]) == Some(kind)
            },
    decreases items.len(),
{
    if items.len() > 0 {
        lemma_handler_positions(items.drop_last());
        let prev = handler_positions(items.drop_last());
        assert forall|k: int| 0 <= k < handler_positions(items).len() implies {
            let (pos, kind) = #[trigger] handler_positions(items)[k];
            &&& pos < items.len()
            &&& handler_kind(items[pos as int]) == Some(kind)
        } by {
            if k < prev.len() {
                assert(handler_positions(items)[k] == prev[k]);
                assert(items.drop_last()[prev[k].0 as int] == items[prev[k].0 as int]);
            }
        }
    }
}

/// Extracts the actor handlers marked with the `#[puppet]` attribute: every item is kept, in
/// order, with its handler attributes removed; stops at the first handler whose signature
/// a handler cannot have, keeping only the items before it.
fn extract_puppet_handlers(items: &mut Vec<ImplItemModel>) -> (r: Result<
    Vec<(usize, HandlerKind)>,
    MacroError,
>)
    ensures
        match r {
            Ok(hs) => {
                &&& handlers_ok(old(items)@, old(items)@.len() as int)
                &&& final(items)@.len() == old(items)@.len()
                &&& stripped_prefix_of(final(items)@, old(items)@, old(items)@.len() as int)
                &&& hs@ == handler_positions(old(items)@)
            },
            Err(e) => exists|j: int|
                0 <= j < old(items)@.len() && handlers_ok(old(items)@, j) && handler_error(
                    old(items)@[j],
                ) == Some(e@) && final(items)@.len() == j && stripped_prefix_of(
                    final(items)@,
                    old(items)@,
                    j,
                ),
        },
{
    let ghost initial = items@;
    let count = items.len();
    proof {
        assert(initial.len() == count);
    }
    let mut rest: Vec<ImplItemModel> = Vec::new();
    std::mem::swap(items, &mut rest);
    let mut message_handlers: Vec<(usize, HandlerKind)> = Vec::new();
    let mut i: usize = 0;
    proof {
        assert(initial.skip(0) =~= initial);
        assert(handler_positions(initial.take(0)) =~= Seq::<(usize, HandlerKind)>::empty());
    }
    while rest.len() > 0
        invariant
            0 <= i <= initial.len(),
            initial.len() <= usize::MAX,
            initial == old(items)@,
            rest@ == initial.skip(i as int),
            items@.len() == i,
            handlers_ok(initial, i as int),
            stripped_prefix_of(items@, initial, i as int),
            message_handlers@ == handler_positions(initial.take(i as int)),
        decreases rest@.len(),
    {
        let tokens = rest.remove(0);
        proof {
            assert(tokens == initial[i as int]);
            assert(rest@ =~= initial.skip(i + 1));
            assert(initial.take(i + 1).drop_last() =~= initial.take(i as int));
            assert(initial.take(i + 1).last() == tokens);
        }
        let kind = is_puppet_handler(&tokens);
        if let Some(kind) = kind {
            if let ImplItemModel::Method(method) = &tokens {
                if kind == HandlerKind::WithReply && method.returns_value {
                    return Err(
                        error_at(
                            method.output_node,
                            "Message handlers taking a reply parameter cannot return a value.",
                        ),
                    );
                }
                if !method.is_async {
                    return Err(error_at(method.sig_node, "Message handlers must be async."));
                }
            }
            message_handlers.push((i, kind));
        }
        let ghost items_before = items@;
        items.push(remove_puppet_handler(tokens));
        proof {
            assert forall|k: int| 0 <= k < i + 1 implies stripped_from(
                #[trigger] items@[k],
                initial[k],
            ) by {
                if k < i {
                    assert(items@[k] == items_before[k]);
                }
            }
            assert forall|k: int| 0 <= k < i + 1 implies handler_error(
                #[trigger] initial[k],
            ) is None by {
                if k < i {
                    assert(handlers_ok(initial, i as int));
                }
            }
            assert(message_handlers@ =~= handler_positions(initial.take(i + 1)));
        }
        i = i + 1;
    }
    proof {
        assert(initial.take(i as int) =~= initial);
    }
    Ok(message_handlers)
}

/// A handler method: its position among the items and its identifier.
#[derive(Debug, PartialEq, Eq)]
pub struct HandlerMethod {
    pub item: usize,
    pub ident: String,
}

/// A handler as plain values: position, method identifier, and message.
pub struct HandlerView {
    pub item: usize,
    pub ident: Seq<char>,
    pub message: ExtractView,
}

/// The views of a sequence of handlers.
pub open spec fn handler_views(s: Seq<(HandlerMethod, Extract)>) -> Seq<HandlerView> {
    Seq::new(
        s.len(),
        |i: int| HandlerView { item: s[i].0.item, ident: s[i].0.ident@, message: s[i].1@ },
    )
}

/// The handlers of an actor and the generic builder that their messages filled.
pub struct ExtractedHandlers {
    pub handlers: Vec<(HandlerMethod, Extract)>,
    pub generics: GenericBuilder,
}

/// The generic builder created from processed type parameters and `where` clause, as plain
/// values: no type parameter is used yet.
pub open spec fn builder_from(types: Seq<TypeParamView>, where_clause: Seq<WhereEntryView>) -> GenericBuilderView {
    let lookup = dedup_params(types);
    GenericBuilderView {
        lookup,
        used: Seq::new(lookup.len(), |k: int| false),
        parent_where: where_clause,
    }
}

/// The generic builder created from processed generics, as plain values.
pub open spec fn initial_builder(generics: ProcessedGenerics) -> GenericBuilderView {
    builder_from(param_views(generics.types@), entry_views(generics.where_clause@))
}

/// Handling the handlers at positions `hs` of `items` in order: what their messages use and
/// the handlers, or the first diagnostic.
pub open spec fn handlers_outcome(items: Seq<ImplItemModel>, hs: Seq<(usize, HandlerKind)>) -> (
    Seq<Seq<char>>,
    Result<Seq<HandlerView>, ErrorView>,
)
    decreases hs.len(),
{
    if hs.len() == 0 {
        (Seq::empty(), Ok(Seq::empty()))
    } else {
        let prev = handlers_outcome(items, hs.drop_last());
        match prev.1 {
            Err(e) => prev,
            Ok(done) => {
                let (pos, kind) = hs.last();
                let m = items[pos as int]->Method_0;
                if !ref_self(m) {
                    (prev.0, Err(error_view(m.node, msg_not_ref_self())))
                } else {
                    let o = extract_outcome(m, kind);
                    match o.1 {
                        Err(e) => (prev.0 + o.0, Err(e)),
                        Ok(x) => (
                            prev.0 + o.0,
                            Ok(done.push(HandlerView { item: pos, ident: m.ident@, message: x })),
                        ),
                    }
                }
            },
        }
    }
}

/// Once handling a prefix of the handlers fails, later handlers change nothing.
proof fn lemma_handlers_outcome_prefix(
    items: Seq<ImplItemModel>,
    hs: Seq<(usize, HandlerKind)>,
    n: int,
)
    requires
        0 <= n <= hs.len(),
        handlers_outcome(items, hs.take(n)).1 is Err,
    ensures
        handlers_outcome(items, hs) == handlers_outcome(items, hs.take(n)),
    decreases hs.len() - n,
{
    if n < hs.len() {
        assert(hs.take(n + 1).drop_last() =~= hs.take(n));
        lemma_handlers_outcome_prefix(items, hs, n + 1);
    } else {
        assert(hs.take(n) =~= hs);
    }
}

/// Walks through all methods marked as message handlers.
///
/// This extracts the used generics, types, and type of handler.
pub fn create_message_handlers(items: &mut Vec<ImplItemModel>, generics: &ProcessedGenerics) -> (r:
    Result<ExtractedHandlers, MacroError>)
    ensures
        !handlers_ok(old(items)@, old(items)@.len() as int) ==> (r matches Err(e) && exists|j: int|
            0 <= j < old(items)@.len() && handlers_ok(old(items)@, j) && handler_error(
                old(items)@[j],
            ) == Some(e@) && final(items)@.len() == j && stripped_prefix_of(
                final(items)@,
                old(items)@,
                j,
            )),
        handlers_ok(old(items)@, old(items)@.len() as int) ==> {
            let o = handlers_outcome(old(items)@, handler_positions(old(items)@));
            &&& final(items)@.len() == old(items)@.len()
            &&& stripped_prefix_of(final(items)@, old(items)@, old(items)@.len() as int)
            &&& match r {
                Ok(x) => {
                    &&& o.1 == Ok::<Seq<HandlerView>, ErrorView>(handler_views(x.handlers@))
                    &&& x.generics@ == initial_builder(*generics).insert_idents(o.0)
                    &&& x.generics@.wf()
                },
                Err(e) => o.1 == Err::<Seq<HandlerView>, ErrorView>(e@),
            }
        },
{
    let ghost initial = items@;
    let count = items.len();
    proof {
        assert(initial.len() == count);
    }
    let handlers = match extract_puppet_handlers(items) {
        Ok(h) => h,
        Err(e) => {
            return Err(e);
        },
    };
    let ghost hs = handlers@;
    proof {
        lemma_handler_positions(initial);
    }
    let mut generic_builder = create_generic_builder(generics);
    let ghost b0 = generic_builder@;
    let mut message_callbacks: Vec<(HandlerMethod, Extract)> = Vec::new();
    let mut i: usize = 0;
    proof {
        assert(hs.take(0) =~= Seq::<(usize, HandlerKind)>::empty());
        lemma_insert_no_idents(b0);
        assert(handler_views(message_callbacks@) =~= Seq::<HandlerView>::empty());
    }
    while i < handlers.len()
        invariant
            0 <= i <= hs.len(),
            hs == handlers@,
            hs == handler_positions(initial),
            initial == old(items)@,
            initial.len() == items@.len(),
            initial.len() <= usize::MAX,
            handlers_ok(initial, initial.len() as int),
            stripped_prefix_of(items@, initial, initial.len() as int),
            forall|k: int|
                0 <= k < hs.len() ==> {
                    let (pos, kind) = #[trigger] hs[k];
                    &&& pos < initial.len()
                    &&& handler_kind(initial[pos as int]) == Some(kind)
                },
            b0 == initial_builder(*generics),
            generic_builder@.wf(),
            generic_builder@ == b0.insert_idents(handlers_outcome(initial, hs.take(i as int)).0),
            handlers_outcome(initial, hs.take(i as int)).1 == Ok::<Seq<HandlerView>, ErrorView>(
                handler_views(message_callbacks@),
            ),
        decreases hs.len() - i,
    {
        let (pos, kind) = handlers[i];
        proof {
            assert(hs.take(i + 1).drop_last() =~= hs.take(i as int));
            assert(hs.take(i + 1).last() == hs[i as int]);
            assert(stripped_from(items@[pos as int], initial[pos as int]));
        }
        if let ImplItemModel::Method(handler) = &items[pos] {
            let ghost m = initial[pos as int]->Method_0;
            proof {
                assert(initial[pos as int] is Method);
                assert(handler.inputs == m.inputs);
                assert(ref_self(*handler) == ref_self(m));
                assert(extract_outcome(*handler, kind) == extract_outcome(m, kind));
            }
            if !is_ref_self(handler) {
                proof {
                    lemma_handlers_outcome_prefix(initial, hs, i + 1);
                }
                return Err(
                    error_at(handler.node, "Message handler must be either `&self` or `&mut self`"),
                );
            }
            let ghost before = generic_builder@;
            let msg = extract_message(&mut generic_builder, handler, kind);
            proof {
                lemma_insert_idents_append(
                    b0,
                    handlers_outcome(initial, hs.take(i as int)).0,
                    extract_outcome(m, kind).0,
                );
            }
            match msg {
                Ok(msg) => {
                    let ghost cbs = message_callbacks@;
                    let entry = (HandlerMethod { item: pos, ident: handler.ident.clone() }, msg);
                    message_callbacks.push(entry);
                    proof {
                        assert(handler_views(message_callbacks@) =~= handler_views(cbs).push(
                            HandlerView { item: pos, ident: m.ident@, message: entry.1@ },
                        ));
                    }
                },
                Err(e) => {
                    proof {
                        lemma_handlers_outcome_prefix(initial, hs, i + 1);
                    }
                    return Err(e);
                },
            }
        } else {
            proof {
                assert(false);
            }
        }
        i = i + 1;
    }
    proof {
        assert(hs.take(hs.len() as int) =~= hs);
    }
    Ok(ExtractedHandlers { handlers: message_callbacks, generics: generic_builder })
}

} // verus!

verus! {

/// No handler attribute is left after the handler attributes are removed, and removing them
/// again changes nothing.
pub proof fn lemma_strip_attrs(attrs: Seq<AttributeModel>)
    ensures
        first_kind(strip_attrs(attrs)) is None,
        strip_attrs(strip_attrs(attrs)) == strip_attrs(attrs),
    decreases attrs.len(),
{
    if attrs.len() > 0 {
        lemma_strip_attrs(attrs.drop_last());
        let prev = strip_attrs(attrs.drop_last());
        if attr_kind(attrs.last()) is None {
            let s = prev.push(attrs.last());
            assert(strip_attrs(attrs) =~= s);
            assert(s.drop_last() =~= prev);
            assert(strip_attrs(s) =~= strip_attrs(prev).push(attrs.last()));
        } else {
            assert(strip_attrs(attrs) =~= prev);
        }
    }
}

/// A method whose handler attributes were removed is no longer a handler.
pub proof fn lemma_stripped_not_handler(new: ImplItemModel, old: ImplItemModel)
    requires
        stripped_from(new, old),
    ensures
        handler_kind(new) is None,
{
    if let ImplItemModel::Method(o) = old {
        lemma_strip_attrs(o.attrs@);
    }
}

} // verus!

verus! {

/// A handler method is refused for its signature exactly when it is not async, or when it
/// is a `#[puppet_with_reply]` handler that returns a value. In particular a `#[puppet]`
/// handler that is async is never refused, whether it returns a value or not.
pub proof fn lemma_handler_error_cases(item: ImplItemModel)
    ensures
        handler_error(item) is Some <==> {
            &&& item is Method
            &&& handler_kind(item) is Some
            &&& (!item->Method_0.is_async || (handler_kind(item) == Some(HandlerKind::WithReply)
                && item->Method_0.returns_value))
        },
        handler_kind(item) == Some(HandlerKind::Direct) && item->Method_0.is_async
            ==> handler_error(item) is None,
{
}

/// Handler `h` of `items` was handled into `v`: its method takes `&self` or `&mut self`,
/// `v` names it, holds the message its extraction finds, and everything that extraction
/// records is in `seen`.
pub open spec fn handled(
    items: Seq<ImplItemModel>,
    h: (usize, HandlerKind),
    v: HandlerView,
    seen: Seq<Seq<char>>,
) -> bool {
    let m = items[h.0 as int]->Method_0;
    &&& ref_self(m)
    &&& v.item == h.0
    &&& v.ident == m.ident@
    &&& extract_outcome(m, h.1).1 == Ok::<ExtractView, ErrorView>(v.message)
    &&& is_within(extract_outcome(m, h.1).0, seen)
}

/// Handling the handlers keeps what every one of their messages uses. When all of them are
/// handled, there is one result per handler, in order, each the message that handler's
/// extraction finds; the identifiers recorded include everything each extraction records
/// (the first handler's as much as the last's) and nothing that none of them records.
pub proof fn lemma_handlers_outcome_keeps_every_message(
    items: Seq<ImplItemModel>,
    hs: Seq<(usize, HandlerKind)>,
)
    ensures
        handlers_outcome(items, hs).1 is Ok ==> {
            let done = handlers_outcome(items, hs).1->Ok_0;
            &&& done.len() == hs.len()
            &&& forall|k: int|
                0 <= k < hs.len() ==> #[trigger] handled(
                    items,
                    hs[k],
                    done[k],
                    handlers_outcome(items, hs).0,
                )
        },
        handlers_outcome(items, hs).1 is Ok ==> forall|x: Seq<char>|
            #[trigger] handlers_outcome(items, hs).0.contains(x) ==> exists|k: int|
                0 <= k < hs.len() && (#[trigger] extract_outcome(
                    items[hs[k].0 as int]->Method_0,
                    hs[k].1,
                )).0.contains(x),
    decreases hs.len(),
{
    if hs.len() > 0 && handlers_outcome(items, hs).1 is Ok {
        let prev_hs = hs.drop_last();
        let n: int = prev_hs.len() as int;
        lemma_handlers_outcome_keeps_every_message(items, prev_hs);
        let prev = handlers_outcome(items, prev_hs);
        assert(prev.1 is Ok);
        let done = prev.1->Ok_0;
        let (pos, kind) = hs.last();
        let m = items[pos as int]->Method_0;
        let o = extract_outcome(m, kind);
        assert(ref_self(m));
        assert(o.1 is Ok);
        let all = handlers_outcome(items, hs);
        assert(all.0 == prev.0 + o.0);
        let view = HandlerView { item: pos, ident: m.ident@, message: o.1->Ok_0 };
        assert(all.1->Ok_0 == done.push(view));
        assert(hs[n] == hs.last());
        lemma_contains_append(prev.0, o.0);
        assert forall|k: int| 0 <= k < hs.len() implies #[trigger] handled(
            items,
            hs[k],
            all.1->Ok_0[k],
            all.0,
        ) by {
            if k < n {
                assert(prev_hs[k] == hs[k]);
                assert(handled(items, prev_hs[k], done[k], prev.0));
                let mk = items[hs[k].0 as int]->Method_0;
                lemma_within_append(extract_outcome(mk, hs[k].1).0, prev.0, o.0);
            } else {
                assert forall|x: Seq<char>| o.0.contains(x) implies all.0.contains(x) by {}
            }
        }
        assert forall|x: Seq<char>| #[trigger] all.0.contains(x) implies exists|k: int|
            0 <= k < hs.len() && (#[trigger] extract_outcome(
                items[hs[k].0 as int]->Method_0,
                hs[k].1,
            )).0.contains(x) by {
            if prev.0.contains(x) {
                let k = choose|k: int|
                    0 <= k < prev_hs.len() && (#[trigger] extract_outcome(
                        items[prev_hs[k].0 as int]->Method_0,
                        prev_hs[k].1,
                    )).0.contains(x);
                assert(prev_hs[k] == hs[k]);
            } else {
                assert(extract_outcome(items[hs[n].0 as int]->Method_0, hs[n].1).0.contains(x));
            }
        }
    }
}

} // verus!
