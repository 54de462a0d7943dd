//! Deriving an actor from its `impl` block: everything the generated code is made of.
use crate::errors::{error_at, error_view, msg_not_struct_impl, ErrorView, MacroError};
use crate::generics_processor::{
    entry_views, generics_error, param_idents, param_views, process_impl_generics,
    processed_types, processed_where, select_entries, select_params, string_views,
    ProcessedGenerics, RemainingGenerics, WhereEntry,
};
use crate::handler::{
    ExtractedHandlers,
    builder_from, create_message_handlers, handler_error, handler_positions, handler_views,
    handlers_ok, handlers_outcome, stripped_prefix_of, HandlerMethod, HandlerView,
};
use crate::generics_processor::Extract;
use crate::model::{generic_param_views, ImplItemModel, ImplModel, TypeModel, TypeParamModel};
use vstd::prelude::*;
use vstd::string::*;

verus! {

/// What the actor derivation generates, as plain values: the `impl` block with its handler
/// attributes removed, the actor's name and its message enum's name, one enum variant per
/// handler, and the generics and `where` predicates of each generated item.
pub struct ActorPlan {
    /// The items of the `impl` block, with the handler attributes removed.
    pub items: Vec<ImplItemModel>,
    /// The name of the actor type.
    pub actor_name: String,
    /// The name of the message enum: the actor's name followed by `Op`.
    pub enum_name: String,
    /// The handlers, in order: one enum variant, one match arm and one message impl each.
    pub handlers: Vec<(HandlerMethod, Extract)>,
    /// The generics of the message enum: the type parameters that the messages use.
    pub enum_generics: Vec<String>,
    /// The generics of the enum's run method: the type parameters no message uses.
    pub remaining_generics: RemainingGenerics,
    /// The `where` predicates of the enum's run method.
    pub remaining_where: Vec<WhereEntry>,
    /// The `where` predicates of the message enum.
    pub enum_where: Vec<WhereEntry>,
    /// The generics of the actor, without bounds.
    pub actor_generics: Vec<TypeParamModel>,
    /// The `where` clause of the actor, holding every bound.
    pub actor_where: Vec<WhereEntry>,
}

/// The name of the actor: the first segment of the `impl`'s self type.
pub open spec fn actor_name_of(info: ImplModel) -> Seq<char> {
    info.self_ty->Path_0.path.segments@[0].ident@
}

/// Derives an actor from its `impl` block.
///
/// The diagnostics come in this order: a self type that is not a path; a lifetime or const
/// parameter; a handler whose signature a handler cannot have; then, handler by handler, a
/// receiver that is not `&self` or `&mut self`, or a message that cannot be extracted.
pub fn generate(info: ImplModel) -> (r: Result<ActorPlan, MacroError>)
    requires
        info.self_ty matches TypeModel::Path(p) ==> p.path.segments@.len() > 0,
    ensures
        !(info.self_ty is Path) ==> (r matches Err(e) && e@ == error_view(
            info.node,
            msg_not_struct_impl(),
        )),
        info.self_ty is Path && generics_error(generic_param_views(info.generics.params@))
            is Some ==> (r matches Err(e) && generics_error(
            generic_param_views(info.generics.params@),
        ) == Some(e@)),
        info.self_ty is Path && generics_error(generic_param_views(info.generics.params@))
            is None && !handlers_ok(info.items@, info.items@.len() as int) ==> (r matches Err(e)
            && exists|j: int|
            0 <= j < info.items@.len() && handlers_ok(info.items@, j) && handler_error(
                info.items@[j],
            ) == Some(e@)),
        info.self_ty is Path && generics_error(generic_param_views(info.generics.params@))
            is None && handlers_ok(info.items@, info.items@.len() as int) ==> {
            let o = handlers_outcome(info.items@, handler_positions(info.items@));
            let types = processed_types(info.generics);
            let wc = processed_where(info.generics);
            let b = builder_from(types, wc).insert_idents(o.0);
            match r {
                Ok(plan) => {
                    &&& o.1 == Ok::<Seq<HandlerView>, ErrorView>(handler_views(plan.handlers@))
                    &&& plan.items@.len() == info.items@.len()
                    &&& stripped_prefix_of(plan.items@, info.items@, info.items@.len() as int)
                    &&& plan.actor_name@ == actor_name_of(info)
                    &&& plan.enum_name@ == actor_name_of(info) + "Op"@
                    &&& string_views(plan.enum_generics@) == param_idents(
                        select_params(b.lookup, b.used, true),
                    )
                    &&& param_views(plan.remaining_generics.0@) == select_params(
                        b.lookup,
                        b.used,
                        false,
                    )
                    &&& entry_views(plan.remaining_where@) == select_entries(
                        b.parent_where,
                        b,
                        false,
                    )
                    &&& entry_views(plan.enum_where@) == select_entries(b.parent_where, b, true)
                    &&& param_views(plan.actor_generics@) == types
                    &&& entry_views(plan.actor_where@) == wc
                },
                Err(e) => o.1 == Err::<Seq<HandlerView>, ErrorView>(e@),
            }
        },
{
    let ImplModel { node, generics, self_ty, items } = info;
    let actor_name = if let TypeModel::Path(path) = &self_ty {
        path.path.segments[0].ident.clone()
    } else {
        return Err(error_at(node, "Expected macro to be placed on a struct impl."));
    };
    let extracted_generics = process_impl_generics(generics)?;
    let mut items = items;
    let extract_handlers = create_message_handlers(&mut items, &extracted_generics)?;
    let ExtractedHandlers { handlers, generics: builder } = extract_handlers;
    let enum_generics = builder.built_generics();
    let remaining_generics = builder.remaining_generics();
    let remaining_where = builder.remaining_where();
    let enum_where = builder.enum_where();
    let mut enum_name = actor_name.clone();
    enum_name.append("Op");
    let ProcessedGenerics { types, where_clause } = extracted_generics;
    Ok(
        ActorPlan {
            items,
            actor_name,
            enum_name,
            handlers,
            enum_generics,
            remaining_generics,
            remaining_where,
            enum_where,
            actor_generics: types,
            actor_where: where_clause,
        },
    )
}

} // verus!
