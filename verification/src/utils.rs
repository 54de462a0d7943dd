//! Small helpers over the syntax model.
use crate::errors::{error_at, error_view, msg_missing_segment, MacroError};
use crate::model::{FnArgModel, PathSegmentModel, TypePathModel};
use vstd::prelude::*;
use vstd::string::*;

verus! {

/// The first segment of a type path, or a diagnostic at the path when it has none.
pub fn get_segment(path: &TypePathModel) -> (r: Result<&PathSegmentModel, MacroError>)
    ensures
        path.path.segments@.len() > 0 ==> (r matches Ok(s) && *s == path.path.segments@[0]),
        path.path.segments@.len() == 0 ==> (r matches Err(e) && e@ == error_view(
            path.node,
            msg_missing_segment(),
        )),
{
    if path.path.segments.len() > 0 {
        Ok(&path.path.segments[0])
    } else {
        Err(error_at(path.node, "Expected message type to be part of function signature."))
    }
}

/// The names bound by the inputs whose pattern is a plain identifier, in order.
pub open spec fn input_names(s: Seq<FnArgModel>) -> Seq<Seq<char>>
    decreases s.len(),
{
    if s.len() == 0 {
        Seq::empty()
    } else {
        input_names(s.drop_last()) + match s.last() {
            FnArgModel::Typed { pat_ident: Some(name), .. } => seq![name@],
            _ => Seq::empty(),
        }
    }
}

/// `parts` joined with `sep` between each two neighbours.
pub open spec fn join(parts: Seq<Seq<char>>, sep: Seq<char>) -> Seq<char>
    decreases parts.len(),
{
    if parts.len() == 0 {
        Seq::empty()
    } else if parts.len() == 1 {
        parts[0]
    } else {
        join(parts.drop_last(), sep) + sep + parts.last()
    }
}

/// The names bound by `inputs`, joined by `", "`.
pub fn format_inputs(inputs: &[FnArgModel]) -> (s: String)
    ensures
        s@ == join(input_names(inputs@), ", "@),
{
    let mut args = String::new();
    let mut any = false;
    let mut i: usize = 0;
    while i < inputs.len()
        invariant
            0 <= i <= inputs@.len(),
            args@ == join(input_names(inputs@.take(i as int)), ", "@),
            any == (input_names(inputs@.take(i as int)).len() > 0),
        decreases inputs@.len() - i,
    {
        proof {
            assert(inputs@.take(i + 1).drop_last() =~= inputs@.take(i as int));
            assert(inputs@.take(i + 1).last() == inputs@[i as int]);
        }
        if let FnArgModel::Typed { pat_ident: Some(name), .. } = &inputs[i] {
            let ghost before = input_names(inputs@.take(i as int));
            let ghost after = input_names(inputs@.take(i + 1));
            proof {
                assert(after =~= before.push(name@));
                assert(after.drop_last() =~= before);
                assert(after.last() == name@);
            }
            if any {
                args.append(", ");
            }
            args.append(name.as_str());
            any = true;
            proof {
                if !any {
                    assert(before.len() == 0);
                    assert(join(before, ", "@) =~= Seq::<char>::empty());
                    assert(after.len() == 1);
                    assert(args@ =~= after[0]);
                }
            }
        } else {
            proof {
                assert(input_names(inputs@.take(i + 1)) =~= input_names(inputs@.take(i as int)));
            }
        }
        i = i + 1;
    }
    proof {
        assert(inputs@.take(inputs@.len() as int) =~= inputs@);
    }
    args
}

} // verus!
