use puppet::errors::MacroError;
use puppet::generate::generate;
use puppet::generics_processor::{
    check_lifetime_static, check_valid_generic, create_generic_builder, extract_message,
    is_reply_type, process_impl_generics, try_get_message_ident, walk_through_generics,
    ArgOrder, Extract, ExtractedMessage, ProcessedGenerics, WhereEntry,
};
use puppet::handler::{
    create_message_handlers, is_puppet_handler, is_ref_self, remove_puppet_handler, HandlerKind,
};
use puppet::model::{
    AttributeModel, FnArgModel, GenericArgumentKind, GenericArgumentModel, GenericParamModel,
    GenericsModel, ImplItemModel, ImplModel, LifetimeModel, MethodModel, PathArgumentsModel,
    PathModel, PathSegmentModel, TypeModel, TypeParamModel, TypePathModel, WherePredicateModel,
};
use puppet::utils::{format_inputs, get_segment};

// ----------------------------------------------------------------------------------------
// Builders for the syntax model
// ----------------------------------------------------------------------------------------

fn seg(ident: &str, args: Vec<TypeModel>, first_node: usize) -> PathSegmentModel {
    let arguments = if args.is_empty() {
        PathArgumentsModel::Empty
    } else {
        PathArgumentsModel::AngleBracketed(
            args.into_iter()
                .enumerate()
                .map(|(i, t)| GenericArgumentModel {
                    node: first_node + i,
                    kind: GenericArgumentKind::Type(t),
                })
                .collect(),
        )
    };
    PathSegmentModel { ident: ident.to_string(), arguments }
}

fn type_path(node: usize, segments: Vec<PathSegmentModel>) -> TypePathModel {
    TypePathModel { node, path: PathModel { leading_colon: false, segments } }
}

fn path_ty(node: usize, segments: Vec<PathSegmentModel>) -> TypeModel {
    TypeModel::Path(type_path(node, segments))
}

/// `Ident` or `Ident<args>` as a single-segment path type.
fn simple(node: usize, ident: &str, args: Vec<TypeModel>) -> TypeModel {
    path_ty(node, vec![seg(ident, args, node * 100)])
}

fn attr(node: usize, name: &str) -> AttributeModel {
    AttributeModel {
        node,
        path: PathModel { leading_colon: false, segments: vec![seg(name, vec![], 0)] },
    }
}

fn receiver(reference: bool) -> FnArgModel {
    FnArgModel::Receiver { node: 1, reference }
}

fn typed(node: usize, name: &str, ty: TypeModel) -> FnArgModel {
    FnArgModel::Typed { node, pat_ident: Some(name.to_string()), ty }
}

fn method(
    node: usize,
    ident: &str,
    attrs: Vec<AttributeModel>,
    inputs: Vec<FnArgModel>,
    is_async: bool,
    returns_value: bool,
) -> MethodModel {
    MethodModel {
        node,
        sig_node: node + 1,
        output_node: node + 2,
        attrs,
        is_async,
        ident: ident.to_string(),
        inputs,
        returns_value,
    }
}

fn type_param(node: usize, ident: &str, bounds: Vec<usize>) -> TypeParamModel {
    TypeParamModel { node, ident: ident.to_string(), bounds }
}

fn where_type(node: usize, idents: &[&str]) -> WherePredicateModel {
    WherePredicateModel::Type {
        node,
        bounded_path: Some(idents.iter().map(|s| s.to_string()).collect()),
    }
}

fn idents(params: &[TypeParamModel]) -> Vec<String> {
    params.iter().map(|p| p.ident.clone()).collect()
}

fn subject(e: &WhereEntry) -> String {
    match e {
        WhereEntry::Written(WherePredicateModel::Type { bounded_path: Some(p), .. }) => {
            p[0].clone()
        }
        WhereEntry::Moved(p) => p.ident.clone(),
        _ => String::new(),
    }
}

fn processed(types: Vec<TypeParamModel>, where_clause: Vec<WhereEntry>) -> ProcessedGenerics {
    ProcessedGenerics { types, where_clause }
}

fn err(node: usize, message: &str) -> MacroError {
    MacroError { node, message: message.to_string() }
}

// ----------------------------------------------------------------------------------------
// Handler kinds and attributes
// ----------------------------------------------------------------------------------------

#[test]
fn expected_argument_counts() {
    assert_eq!(HandlerKind::Direct.expected_argument_count(), 2);
    assert_eq!(HandlerKind::WithReply.expected_argument_count(), 3);
}

#[test]
fn puppet_attributes_mark_handlers() {
    let direct = ImplItemModel::Method(method(10, "a", vec![attr(1, "puppet")], vec![], true, true));
    let with_reply = ImplItemModel::Method(method(
        10,
        "b",
        vec![attr(1, "inline"), attr(2, "puppet_with_reply"), attr(3, "puppet")],
        vec![],
        true,
        false,
    ));
    let plain = ImplItemModel::Method(method(10, "c", vec![attr(1, "inline")], vec![], true, true));
    let other = ImplItemModel::Other { node: 4 };
    assert_eq!(is_puppet_handler(&direct), Some(HandlerKind::Direct));
    assert_eq!(is_puppet_handler(&with_reply), Some(HandlerKind::WithReply));
    assert_eq!(is_puppet_handler(&plain), None);
    assert_eq!(is_puppet_handler(&other), None);
}

#[test]
fn qualified_attribute_path_is_not_a_handler() {
    let mut a = attr(1, "puppet");
    a.path.leading_colon = true;
    let item = ImplItemModel::Method(method(10, "a", vec![a], vec![], true, true));
    assert_eq!(is_puppet_handler(&item), None);
}

#[test]
fn removing_handler_attributes_keeps_the_others() {
    let item = ImplItemModel::Method(method(
        10,
        "b",
        vec![attr(1, "inline"), attr(2, "puppet_with_reply"), attr(3, "doc"), attr(4, "puppet")],
        vec![receiver(true)],
        true,
        false,
    ));
    let stripped = remove_puppet_handler(item);
    match &stripped {
        ImplItemModel::Method(m) => {
            let kept: Vec<usize> = m.attrs.iter().map(|a| a.node).collect();
            assert_eq!(kept, vec![1, 3]);
            assert_eq!(m.ident, "b");
        }
        _ => panic!("expected a method"),
    }
    // The law: a stripped method is no longer a handler.
    assert_eq!(is_puppet_handler(&stripped), None);
    let again = remove_puppet_handler(stripped);
    match again {
        ImplItemModel::Method(m) => assert_eq!(m.attrs.len(), 2),
        _ => panic!("expected a method"),
    }
}

#[test]
fn receivers() {
    assert!(is_ref_self(&method(1, "a", vec![], vec![receiver(true)], true, true)));
    assert!(!is_ref_self(&method(1, "a", vec![], vec![receiver(false)], true, true)));
    assert!(!is_ref_self(&method(1, "a", vec![], vec![], true, true)));
    assert!(!is_ref_self(&method(
        1,
        "a",
        vec![],
        vec![typed(2, "x", simple(3, "X", vec![]))],
        true,
        true
    )));
}

// ----------------------------------------------------------------------------------------
// Utilities
// ----------------------------------------------------------------------------------------

#[test]
fn format_inputs_joins_bound_names() {
    let inputs = vec![
        typed(1, "a", simple(2, "A", vec![])),
        FnArgModel::Typed { node: 3, pat_ident: None, ty: simple(4, "B", vec![]) },
        typed(5, "c", simple(6, "C", vec![])),
        receiver(true),
        typed(7, "d", simple(8, "D", vec![])),
    ];
    assert_eq!(format_inputs(&inputs), "a, c, d");
    assert_eq!(format_inputs(&inputs[..1]), "a");
    assert_eq!(format_inputs(&[]), "");
}

#[test]
fn get_segment_first_or_error() {
    let p = type_path(5, vec![seg("crate", vec![], 0), seg("Msg", vec![], 0)]);
    assert_eq!(get_segment(&p).unwrap().ident, "crate");
    let empty = type_path(6, vec![]);
    assert_eq!(
        get_segment(&empty).unwrap_err(),
        err(6, "Expected message type to be part of function signature.")
    );
}

// ----------------------------------------------------------------------------------------
// Processing the impl's generics
// ----------------------------------------------------------------------------------------

#[test]
fn bounds_move_to_the_where_clause() {
    let generics = GenericsModel {
        params: vec![
            GenericParamModel::Type(type_param(1, "T", vec![11, 12])),
            GenericParamModel::Type(type_param(2, "U", vec![])),
        ],
        where_clause: Some(vec![where_type(3, &["T"]), WherePredicateModel::Lifetime { node: 4 }]),
    };
    let p = process_impl_generics(generics).unwrap();
    assert_eq!(p.types, vec![type_param(1, "T", vec![]), type_param(2, "U", vec![])]);
    assert_eq!(
        p.where_clause,
        vec![
            WhereEntry::Written(where_type(3, &["T"])),
            WhereEntry::Written(WherePredicateModel::Lifetime { node: 4 }),
            WhereEntry::Moved(type_param(1, "T", vec![11, 12])),
            WhereEntry::Moved(type_param(2, "U", vec![])),
        ]
    );
}

#[test]
fn no_where_clause_written() {
    let generics = GenericsModel {
        params: vec![GenericParamModel::Type(type_param(1, "T", vec![9]))],
        where_clause: None,
    };
    let p = process_impl_generics(generics).unwrap();
    assert_eq!(p.where_clause, vec![WhereEntry::Moved(type_param(1, "T", vec![9]))]);
}

#[test]
fn lifetime_generics_are_refused() {
    let generics = GenericsModel {
        params: vec![
            GenericParamModel::Type(type_param(1, "T", vec![])),
            GenericParamModel::Lifetime { node: 2 },
            GenericParamModel::Const { node: 3 },
        ],
        where_clause: None,
    };
    assert_eq!(
        process_impl_generics(generics).unwrap_err(),
        err(2, "Puppet actors cannot support lifetime generics.")
    );
}

#[test]
fn const_generics_are_refused() {
    let generics = GenericsModel {
        params: vec![GenericParamModel::Const { node: 3 }, GenericParamModel::Lifetime { node: 2 }],
        where_clause: None,
    };
    assert_eq!(
        process_impl_generics(generics).unwrap_err(),
        err(3, "Puppet actors cannot support const generics.")
    );
}

// ----------------------------------------------------------------------------------------
// The generic builder
// ----------------------------------------------------------------------------------------

fn two_param_generics() -> ProcessedGenerics {
    processed(
        vec![type_param(1, "T", vec![]), type_param(2, "U", vec![])],
        vec![
            WhereEntry::Written(where_type(3, &["T"])),
            WhereEntry::Written(where_type(4, &["Vec", "T"])),
            WhereEntry::Written(where_type(5, &["Other"])),
            WhereEntry::Written(WherePredicateModel::Eq { node: 6 }),
            WhereEntry::Written(WherePredicateModel::Type { node: 7, bounded_path: None }),
            WhereEntry::Moved(type_param(1, "T", vec![21])),
            WhereEntry::Moved(type_param(2, "U", vec![22])),
        ],
    )
}

#[test]
fn builder_starts_with_every_parameter_remaining() {
    let b = create_generic_builder(&two_param_generics());
    assert!(b.built_generics().is_empty());
    assert_eq!(idents(&b.remaining_generics().0), vec!["T", "U"]);
    assert!(b.enum_where().is_empty());
    let nodes: Vec<String> = b.remaining_where().iter().map(subject).collect();
    assert_eq!(nodes, vec!["T", "Vec", "T", "U"].into_iter().filter(|s| *s != "Vec").collect::<Vec<_>>());
}

#[test]
fn used_parameters_move_to_the_enum() {
    let mut b = create_generic_builder(&two_param_generics());
    b.check_and_insert_type(&"T".to_string());
    b.check_and_insert_type(&"Unknown".to_string());
    // Recording twice is recording once.
    b.check_and_insert_type(&"T".to_string());
    assert_eq!(b.built_generics(), vec!["T".to_string()]);
    assert_eq!(idents(&b.remaining_generics().0), vec!["U"]);
    let enum_where: Vec<String> = b.enum_where().iter().map(subject).collect();
    assert_eq!(enum_where, vec!["T", "T"]);
    let remaining_where: Vec<String> = b.remaining_where().iter().map(subject).collect();
    assert_eq!(remaining_where, vec!["U"]);
    // Each predicate on a parameter goes to exactly one side; the others to neither.
    assert_eq!(b.enum_where().len() + b.remaining_where().len(), 3);
}

#[test]
fn duplicate_parameters_keep_the_last() {
    let g = processed(
        vec![type_param(1, "T", vec![]), type_param(2, "U", vec![]), type_param(3, "T", vec![])],
        vec![],
    );
    let b = create_generic_builder(&g);
    let remaining = b.remaining_generics().0;
    assert_eq!(idents(&remaining), vec!["T", "U"]);
    assert_eq!(remaining[0].node, 3);
}

// ----------------------------------------------------------------------------------------
// Walking message types
// ----------------------------------------------------------------------------------------

fn builder_t_u() -> puppet::generics_processor::GenericBuilder {
    create_generic_builder(&processed(
        vec![type_param(1, "T", vec![]), type_param(2, "U", vec![])],
        vec![],
    ))
}

#[test]
fn walk_records_generics_inside_types() {
    let mut b = builder_t_u();
    // (fn(&'static U) -> [Vec<T>; 3],)
    let ty = TypeModel::Tuple {
        node: 1,
        elems: vec![TypeModel::BareFn {
            node: 2,
            lifetimes: vec![LifetimeModel { node: 3, ident: "static".to_string() }],
            inputs: vec![TypeModel::Reference {
                node: 4,
                lifetime: Some(LifetimeModel { node: 5, ident: "static".to_string() }),
                elem: Box::new(simple(6, "U", vec![])),
            }],
            output: Some(Box::new(TypeModel::Array {
                node: 7,
                elem: Box::new(simple(8, "Vec", vec![simple(9, "T", vec![])])),
            })),
        }],
    };
    assert_eq!(walk_through_generics(&mut b, &ty), Ok(()));
    assert_eq!(b.built_generics(), vec!["T".to_string(), "U".to_string()]);
}

#[test]
fn walk_is_breadth_first() {
    // Msg<Vec<impl X>, [u8]>: the queue holds `Vec<impl X>` then `[u8]`; popping `Vec<..>`
    // queues `impl X` behind `[u8]`, so the slice is reported first.
    let ty = simple(
        1,
        "Msg",
        vec![
            simple(2, "Vec", vec![TypeModel::ImplTrait { node: 3 }]),
            TypeModel::Slice { node: 4 },
        ],
    );
    let mut b = builder_t_u();
    assert_eq!(
        walk_through_generics(&mut b, &ty),
        Err(err(4, "Slices are not supported by puppet in message handlers."))
    );
}

#[test]
fn walk_errors() {
    let cases = vec![
        (TypeModel::ImplTrait { node: 7 }, err(7, "Message handlers do not support impl trait types.")),
        (TypeModel::Infer { node: 7 }, err(7, "Message handlers do not support inferred types.")),
        (
            TypeModel::Macro { node: 7 },
            err(7, "Message handlers do not support macros in the arguments."),
        ),
        (
            TypeModel::Reference {
                node: 6,
                lifetime: Some(LifetimeModel { node: 7, ident: "a".to_string() }),
                elem: Box::new(simple(8, "T", vec![])),
            },
            err(7, "Only `&'static` lifetimes are supported in generic message payloads."),
        ),
        (
            TypeModel::BareFn {
                node: 6,
                lifetimes: vec![
                    LifetimeModel { node: 5, ident: "static".to_string() },
                    LifetimeModel { node: 7, ident: "b".to_string() },
                ],
                inputs: vec![],
                output: None,
            },
            err(7, "Only `&'static` lifetimes are supported in generic message payloads."),
        ),
    ];
    for (ty, expected) in cases {
        let mut b = builder_t_u();
        assert_eq!(walk_through_generics(&mut b, &ty), Err(expected));
    }
}

#[test]
fn walk_keeps_what_it_saw_before_an_error() {
    // (T, _): `T` is seen before the inferred type fails.
    let ty = TypeModel::Tuple {
        node: 1,
        elems: vec![simple(2, "T", vec![]), TypeModel::Infer { node: 3 }],
    };
    let mut b = builder_t_u();
    assert!(walk_through_generics(&mut b, &ty).is_err());
    assert_eq!(b.built_generics(), vec!["T".to_string()]);
}

#[test]
fn walk_ignores_opaque_types() {
    for ty in [
        TypeModel::Never { node: 1 },
        TypeModel::TraitObject { node: 1 },
        TypeModel::Verbatim { node: 1 },
        TypeModel::Group { node: 1, elem: Box::new(simple(2, "U", vec![])) },
        TypeModel::Paren { node: 1, elem: Box::new(simple(2, "U", vec![])) },
        TypeModel::Ptr { node: 1, elem: Box::new(simple(2, "U", vec![])) },
        TypeModel::Reference { node: 1, lifetime: None, elem: Box::new(simple(2, "U", vec![])) },
    ] {
        let mut b = builder_t_u();
        assert_eq!(walk_through_generics(&mut b, &ty), Ok(()));
    }
}

#[test]
fn lifetime_checks() {
    assert_eq!(check_lifetime_static(None), Ok(()));
    let st = LifetimeModel { node: 1, ident: "static".to_string() };
    assert_eq!(check_lifetime_static(Some(&st)), Ok(()));
    let a = LifetimeModel { node: 2, ident: "a".to_string() };
    assert_eq!(
        check_lifetime_static(Some(&a)),
        Err(err(2, "Only `&'static` lifetimes are supported in generic message payloads."))
    );
}

#[test]
fn generic_arguments_must_be_types() {
    let mut b = builder_t_u();
    let arg = GenericArgumentModel { node: 9, kind: GenericArgumentKind::Lifetime };
    assert_eq!(
        check_valid_generic(&mut b, &arg),
        Err(err(9, "Unsupported generics in message handler signature."))
    );
    let arg = GenericArgumentModel { node: 9, kind: GenericArgumentKind::Type(simple(1, "U", vec![])) };
    assert_eq!(check_valid_generic(&mut b, &arg), Ok(()));
    assert_eq!(b.built_generics(), vec!["U".to_string()]);
}

#[test]
fn message_ident_is_the_first_segment() {
    let mut b = builder_t_u();
    // crate::Msg<T>: only the first segment, `crate`, counts.
    let p = type_path(1, vec![seg("crate", vec![], 0), seg("Msg", vec![simple(2, "T", vec![])], 5)]);
    assert_eq!(try_get_message_ident(&mut b, &p), Ok("crate".to_string()));
    assert!(b.built_generics().is_empty());
    let p = type_path(1, vec![seg("Msg", vec![simple(2, "T", vec![])], 5)]);
    assert_eq!(try_get_message_ident(&mut b, &p), Ok("Msg".to_string()));
    assert_eq!(b.built_generics(), vec!["T".to_string()]);
}

#[test]
fn reply_type_detection() {
    assert_eq!(is_reply_type(&type_path(1, vec![seg("Reply", vec![], 0)])), Ok(true));
    assert_eq!(is_reply_type(&type_path(1, vec![seg("puppet", vec![], 0), seg("Reply", vec![], 0)])), Ok(true));
    assert_eq!(is_reply_type(&type_path(1, vec![seg("Reply", vec![], 0), seg("Other", vec![], 0)])), Ok(false));
    assert_eq!(is_reply_type(&type_path(1, vec![seg("Msg", vec![], 0)])), Ok(false));
    assert!(is_reply_type(&type_path(1, vec![])).is_err());
}

// ----------------------------------------------------------------------------------------
// Extracting messages
// ----------------------------------------------------------------------------------------

fn reply_ty(node: usize) -> TypeModel {
    simple(node, "Reply", vec![simple(node + 1, "String", vec![])])
}

#[test]
fn direct_handler_message() {
    let mut b = builder_t_u();
    let m = method(
        10,
        "on_append",
        vec![],
        vec![receiver(true), typed(20, "msg", simple(21, "Append", vec![simple(22, "T", vec![])]))],
        true,
        true,
    );
    assert_eq!(
        extract_message(&mut b, &m, HandlerKind::Direct),
        Ok(Extract::Message(ExtractedMessage { ident: "Append".to_string(), ty: 21 }))
    );
    assert_eq!(b.built_generics(), vec!["T".to_string()]);
}

#[test]
fn reply_handler_messages_in_either_order() {
    let mut b = builder_t_u();
    let first = method(
        10,
        "f",
        vec![],
        vec![receiver(true), typed(20, "reply", reply_ty(30)), typed(21, "msg", simple(22, "Get", vec![]))],
        true,
        false,
    );
    assert_eq!(
        extract_message(&mut b, &first, HandlerKind::WithReply),
        Ok(Extract::MessageWithReply(
            ExtractedMessage { ident: "Get".to_string(), ty: 22 },
            ArgOrder::First
        ))
    );
    let second = method(
        10,
        "f",
        vec![],
        vec![receiver(true), typed(21, "msg", simple(22, "Get", vec![])), typed(20, "reply", reply_ty(30))],
        true,
        false,
    );
    let x = extract_message(&mut b, &second, HandlerKind::WithReply).unwrap();
    assert_eq!(x.ident(), "Get");
    assert_eq!(x.ty(), 22);
    assert_eq!(
        x,
        Extract::MessageWithReply(ExtractedMessage { ident: "Get".to_string(), ty: 22 }, ArgOrder::Second)
    );
}

#[test]
fn qualified_reply_handle_is_the_reply() {
    // async fn h(&self, msg: M, reply: puppet::Reply<u32>)
    let mut b = builder_t_u();
    let qualified = TypeModel::Path(type_path(
        30,
        vec![seg("puppet", vec![], 0), seg("Reply", vec![simple(31, "u32", vec![])], 32)],
    ));
    let m = method(
        10,
        "h",
        vec![],
        vec![receiver(false), typed(21, "msg", simple(22, "M", vec![])), typed(20, "reply", qualified)],
        true,
        false,
    );
    assert_eq!(
        extract_message(&mut b, &m, HandlerKind::WithReply),
        Ok(Extract::MessageWithReply(ExtractedMessage { ident: "M".to_string(), ty: 22 }, ArgOrder::Second))
    );
}

#[test]
fn extraction_errors() {
    let mut b = builder_t_u();
    let too_many = method(
        10,
        "f",
        vec![],
        vec![
            receiver(true),
            typed(20, "a", simple(21, "A", vec![])),
            typed(22, "b", simple(23, "B", vec![])),
            typed(24, "c", simple(25, "C", vec![])),
        ],
        true,
        true,
    );
    assert_eq!(
        extract_message(&mut b, &too_many, HandlerKind::Direct),
        Err(err(
            10,
            "Message handler can only support accepting `self` and a single message parameter. Got: b, c"
        ))
    );
    let missing = method(10, "f", vec![], vec![receiver(true)], true, true);
    assert_eq!(
        extract_message(&mut b, &missing, HandlerKind::Direct),
        Err(err(10, "Expected message argument to be present."))
    );
    let not_path = method(
        10,
        "f",
        vec![],
        vec![receiver(true), typed(20, "a", TypeModel::Tuple { node: 21, elems: vec![] })],
        true,
        true,
    );
    let unsupported = "Only concrete types or generics are supported by the system. impl trait blocks and others are not.";
    assert_eq!(extract_message(&mut b, &not_path, HandlerKind::Direct), Err(err(10, unsupported)));
    assert_eq!(extract_message(&mut b, &not_path, HandlerKind::WithReply), Err(err(10, unsupported)));
    let no_reply = method(
        10,
        "f",
        vec![],
        vec![receiver(true), typed(20, "a", simple(21, "A", vec![]))],
        true,
        false,
    );
    let hint = "Expected message argument to be present and a reply argument, hint: reply parameter must take `puppet::Reply<T>` type.";
    assert_eq!(extract_message(&mut b, &no_reply, HandlerKind::WithReply), Err(err(10, hint)));
    let two_replies = method(
        10,
        "f",
        vec![],
        vec![receiver(true), typed(20, "a", reply_ty(30)), typed(22, "b", reply_ty(40))],
        true,
        false,
    );
    assert_eq!(extract_message(&mut b, &two_replies, HandlerKind::WithReply), Err(err(10, hint)));
}

// ----------------------------------------------------------------------------------------
// Handlers of an impl block
// ----------------------------------------------------------------------------------------

#[test]
fn handlers_are_found_in_order() {
    let mut items = vec![
        ImplItemModel::Method(method(10, "new", vec![], vec![], false, true)),
        ImplItemModel::Method(method(
            20,
            "on_a",
            vec![attr(1, "puppet")],
            vec![receiver(true), typed(25, "m", simple(26, "A", vec![simple(27, "T", vec![])]))],
            true,
            true,
        )),
        ImplItemModel::Other { node: 30 },
        ImplItemModel::Method(method(
            40,
            "on_b",
            vec![attr(2, "puppet_with_reply")],
            vec![receiver(false), typed(45, "m", simple(46, "B", vec![])), typed(47, "r", reply_ty(48))],
            true,
            false,
        )),
    ];
    let g = processed(vec![type_param(1, "T", vec![])], vec![]);
    // on_b takes `self` by value.
    assert_eq!(
        create_message_handlers(&mut items, &g).err(),
        Some(err(40, "Message handler must be either `&self` or `&mut self`"))
    );
}

#[test]
fn handler_signature_errors() {
    let reply_returns = ImplItemModel::Method(method(
        20,
        "on_a",
        vec![attr(1, "puppet_with_reply")],
        vec![receiver(true)],
        true,
        true,
    ));
    let mut items = vec![ImplItemModel::Other { node: 5 }, reply_returns];
    let g = processed(vec![], vec![]);
    assert_eq!(
        create_message_handlers(&mut items, &g).err(),
        Some(err(22, "Message handlers taking a reply parameter cannot return a value."))
    );
    // Only the items before the failing one are kept.
    assert_eq!(items.len(), 1);
    let not_async =
        ImplItemModel::Method(method(20, "on_a", vec![attr(1, "puppet")], vec![receiver(true)], false, true));
    let mut items = vec![not_async];
    assert_eq!(
        create_message_handlers(&mut items, &g).err(),
        Some(err(21, "Message handlers must be async."))
    );
}

// ----------------------------------------------------------------------------------------
// Deriving a whole actor
// ----------------------------------------------------------------------------------------

/// `impl<T> AppenderService<T> where T: Clone + Send + 'static { fn new() .. ;
///  #[puppet] async fn on_append_and_return(&mut self, msg: AppendAndReturn<T>) -> Vec<T> }`
fn appender_service() -> ImplModel {
    ImplModel {
        node: 1,
        generics: GenericsModel {
            params: vec![GenericParamModel::Type(type_param(2, "T", vec![]))],
            where_clause: Some(vec![where_type(3, &["T"])]),
        },
        self_ty: simple(4, "AppenderService", vec![simple(5, "T", vec![])]),
        items: vec![
            ImplItemModel::Method(method(10, "new", vec![], vec![], false, true)),
            ImplItemModel::Method(method(
                20,
                "on_append_and_return",
                vec![attr(23, "puppet")],
                vec![
                    receiver(true),
                    typed(24, "msg", simple(25, "AppendAndReturn", vec![simple(26, "T", vec![])])),
                ],
                true,
                true,
            )),
        ],
    }
}

#[test]
fn generics_run_basic_actor_plan() {
    let plan = generate(appender_service()).unwrap();
    assert_eq!(plan.actor_name, "AppenderService");
    assert_eq!(plan.enum_name, "AppenderServiceOp");
    assert_eq!(plan.handlers.len(), 1);
    assert_eq!(plan.handlers[0].0.item, 1);
    assert_eq!(plan.handlers[0].0.ident, "on_append_and_return");
    assert_eq!(
        plan.handlers[0].1,
        Extract::Message(ExtractedMessage { ident: "AppendAndReturn".to_string(), ty: 25 })
    );
    assert_eq!(plan.enum_generics, vec!["T".to_string()]);
    assert!(plan.remaining_generics.0.is_empty());
    assert!(plan.remaining_where.is_empty());
    let enum_where: Vec<usize> = plan
        .enum_where
        .iter()
        .map(|e| match e {
            WhereEntry::Written(WherePredicateModel::Type { node, .. }) => *node,
            WhereEntry::Moved(p) => p.node,
            _ => 0,
        })
        .collect();
    assert_eq!(enum_where, vec![3, 2]);
    assert_eq!(idents(&plan.actor_generics), vec!["T"]);
    assert_eq!(plan.actor_where.len(), 2);
    // The puppet attribute is gone, everything else stays.
    assert_eq!(plan.items.len(), 2);
    match &plan.items[1] {
        ImplItemModel::Method(m) => assert!(m.attrs.is_empty()),
        _ => panic!("expected a method"),
    }
}

#[test]
fn basic_run_basic_actor_plan() {
    let info = ImplModel {
        node: 1,
        generics: GenericsModel { params: vec![], where_clause: None },
        self_ty: simple(4, "MyActor", vec![]),
        items: vec![ImplItemModel::Method(method(
            20,
            "on_say_hello",
            vec![attr(23, "puppet")],
            vec![receiver(true), typed(24, "msg", simple(25, "SayHello", vec![]))],
            true,
            true,
        ))],
    };
    let plan = generate(info).unwrap();
    assert_eq!(plan.enum_name, "MyActorOp");
    assert!(plan.enum_generics.is_empty());
    assert_eq!(plan.handlers[0].1.ident(), "SayHello");
}

#[test]
fn unused_generics_stay_on_the_run_method() {
    let mut info = appender_service();
    info.generics.params.push(GenericParamModel::Type(type_param(6, "S", vec![31])));
    let plan = generate(info).unwrap();
    assert_eq!(plan.enum_generics, vec!["T".to_string()]);
    assert_eq!(idents(&plan.remaining_generics.0), vec!["S"]);
    assert_eq!(plan.remaining_where, vec![WhereEntry::Moved(type_param(6, "S", vec![31]))]);
}

#[test]
fn generate_refuses_a_non_path_self_type() {
    let mut info = appender_service();
    info.self_ty = TypeModel::Tuple { node: 4, elems: vec![] };
    assert_eq!(generate(info).err(), Some(err(1, "Expected macro to be placed on a struct impl.")));
}

#[test]
fn generate_reports_generics_errors_first() {
    let mut info = appender_service();
    info.generics.params.push(GenericParamModel::Lifetime { node: 9 });
    info.items.push(ImplItemModel::Method(method(50, "bad", vec![attr(1, "puppet")], vec![], false, true)));
    assert_eq!(
        generate(info).err(),
        Some(err(9, "Puppet actors cannot support lifetime generics."))
    );
}
