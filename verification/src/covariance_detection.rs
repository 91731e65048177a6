//! Decides, from the shape of a type, whether it is covariant over the
//! self-lifetime `'this`.

use vstd::prelude::*;
use vstd::string::*;
use crate::syntax::{GenericArgument, PathArguments, PathSegment, TypeExpr, TypeShape};
use crate::utils::{mentions_this, uses_this_lifetime};

verus! {

/// The owning containers of the standard library that are trusted to be
/// covariant in what they hold.
#[derive(Clone, Copy, Debug, PartialEq, Eq, Structural)]
pub enum StdContainer {
    Box,
    Arc,
    Rc,
}

/// The container that a name stands for, if it is one of the three.
pub open spec fn container_named(name: Seq<char>) -> Option<StdContainer> {
    if name == "Box"@ {
        Some(StdContainer::Box)
    } else if name == "Arc"@ {
        Some(StdContainer::Arc)
    } else if name == "Rc"@ {
        Some(StdContainer::Rc)
    } else {
        None
    }
}

/// The container and the element type of `ty`, where `ty` is a path whose
/// last segment is named `Box`, `Arc` or `Rc` and has exactly one argument
/// between angle brackets, a type.
pub open spec fn std_container(ty: TypeExpr) -> Option<(StdContainer, TypeExpr)> {
    match ty.shape {
        TypeShape::Path { qself, segments } => if segments.len() == 0 {
            None
        } else {
            match segments[segments.len() - 1].arguments {
                PathArguments::AngleBracketed(args) => if args.len() != 1 {
                    None
                } else {
                    match args[0] {
                        GenericArgument::Type(elem) => match container_named(
                            segments[segments.len() - 1].ident@,
                        ) {
                            Some(container) => Some((container, elem)),
                            None => None,
                        },
                        _ => None,
                    }
                },
                _ => None,
            }
        },
        _ => None,
    }
}

/// Returns the container and the element type if `raw_type` appears to be
/// `Box`, `Arc` or `Rc` of the standard library.
pub fn apparent_std_container_type(raw_type: &TypeExpr) -> (r: Option<(StdContainer, &TypeExpr)>)
    ensures
        match r {
            Some((container, elem)) => std_container(*raw_type) == Some((container, *elem)),
            None => std_container(*raw_type) is None,
        },
{
    let segments = match &raw_type.shape {
        TypeShape::Path { qself, segments } => segments,
        _ => {
            return None;
        },
    };
    if segments.len() == 0 {
        return None;
    }
    let segment = &segments[segments.len() - 1];
    let args = match &segment.arguments {
        PathArguments::AngleBracketed(args) => args,
        _ => {
            return None;
        },
    };
    if args.len() != 1 {
        return None;
    }
    let eltype = match &args[0] {
        GenericArgument::Type(x) => x,
        _ => {
            return None;
        },
    };
    if segment.ident == String::from_str("Box") {
        Some((StdContainer::Box, eltype))
    } else if segment.ident == String::from_str("Arc") {
        Some((StdContainer::Arc, eltype))
    } else if segment.ident == String::from_str("Rc") {
        Some((StdContainer::Rc, eltype))
    } else {
        None
    }
}

/// What one part of a path says of the whole path.
pub enum Verdict {
    /// Nothing: the parts after it decide.
    Open,
    /// The covariance of the whole path.
    Settled(Option<bool>),
}

/// Whether a type is covariant over `'this`: `Some(true)` where it is known to
/// be, `Some(false)` where it is known not to be, `None` where the shape of
/// the type does not tell.
///
/// A type that does not name `'this` is covariant. Arrays, slices, groups and
/// parentheses are what their element is. An immutable reference or pointer is
/// what its target is; a mutable pointer is not covariant, and a mutable
/// reference is covariant exactly if its target does not name `'this`.
/// Function pointers, trait objects, `impl Trait`, `_`, macros and `!` do not
/// tell. A tuple is not covariant if one element is known not to be, does not
/// tell if one element does not tell, and is covariant otherwise. A path is
/// decided by its qualified self type and then by the first of its arguments
/// that settles it.
pub open spec fn covariance(ty: TypeExpr) -> Option<bool>
    decreases ty, 0nat,
{
    if !mentions_this(ty.tokens@) {
        Some(true)
    } else {
        match ty.shape {
            TypeShape::Array(elem) => covariance(*elem),
            TypeShape::Group(elem) => covariance(*elem),
            TypeShape::Paren(elem) => covariance(*elem),
            TypeShape::Slice(elem) => covariance(*elem),
            TypeShape::Path { qself, segments } => {
                let of_self = match qself {
                    Some(q) => covariance(*q),
                    None => Some(true),
                };
                match of_self {
                    Some(true) => match segments_verdict(
                        segments@,
                        std_container(ty) is Some,
                        0,
                    ) {
                        Verdict::Settled(c) => c,
                        Verdict::Open => Some(true),
                    },
                    other => other,
                }
            },
            TypeShape::Ptr { mutable, elem } => if mutable {
                Some(false)
            } else {
                covariance(*elem)
            },
            TypeShape::Reference { mutable, elem } => if mutable {
                Some(!mentions_this(elem.tokens@))
            } else {
                covariance(*elem)
            },
            TypeShape::Tuple(elems) => if exists|i: int|
                0 <= i < elems.len() && covariance(#[trigger] elems[i]) == Some(false) {
                Some(false)
            } else if exists|i: int| 0 <= i < elems.len() && covariance(#[trigger] elems[i]) is None {
                None
            } else {
                Some(true)
            },
            _ => None,
        }
    }
}

/// What one argument between angle brackets says of its path. In a trusted
/// container a type argument passes its own covariance on unless it is
/// covariant; elsewhere any argument that names `'this` leaves the path
/// undecidable.
pub open spec fn argument_verdict(arg: GenericArgument, in_container: bool) -> Verdict
    decreases arg, 0nat,
{
    match arg {
        GenericArgument::Type(ty) => if in_container {
            match covariance(ty) {
                Some(true) => Verdict::Open,
                other => Verdict::Settled(other),
            }
        } else if mentions_this(ty.tokens@) {
            Verdict::Settled(None)
        } else {
            Verdict::Open
        },
        GenericArgument::Lifetime(name) => if name@ == "this"@ && !in_container {
            Verdict::Settled(None)
        } else {
            Verdict::Open
        },
        GenericArgument::Other => Verdict::Open,
    }
}

/// The verdict of the first argument from `from` on that settles the path.
pub open spec fn arguments_verdict(args: Seq<GenericArgument>, in_container: bool, from: int) -> Verdict
    decreases args, args.len() - from,
{
    if from < 0 || from >= args.len() {
        Verdict::Open
    } else {
        match argument_verdict(args[from], in_container) {
            Verdict::Open => arguments_verdict(args, in_container, from + 1),
            settled => settled,
        }
    }
}

/// What the arguments of one path segment say of the path. An argument or a
/// result type between parentheses that names `'this` leaves the path
/// undecidable.
pub open spec fn segment_verdict(segment: PathSegment, in_container: bool) -> Verdict
    decreases segment, 0nat,
{
    match segment.arguments {
        PathArguments::Empty => Verdict::Open,
        PathArguments::AngleBracketed(args) => arguments_verdict(args@, in_container, 0),
        PathArguments::Parenthesized { inputs, output } => if exists|i: int|
            0 <= i < inputs.len() && mentions_this((#[trigger] inputs[i]).tokens@) {
            Verdict::Settled(None)
        } else {
            match output {
                Some(ty) => if mentions_this(ty.tokens@) {
                    Verdict::Settled(None)
                } else {
                    Verdict::Open
                },
                None => Verdict::Open,
            }
        },
    }
}

/// The verdict of the first segment from `from` on that settles the path.
pub open spec fn segments_verdict(segments: Seq<PathSegment>, in_container: bool, from: int) -> Verdict
    decreases segments, segments.len() - from,
{
    if from < 0 || from >= segments.len() {
        Verdict::Open
    } else {
        match segment_verdict(segments[from], in_container) {
            Verdict::Open => segments_verdict(segments, in_container, from + 1),
            settled => settled,
        }
    }
}

/// Whether none of the types that stand directly inside `ty` names `'this`.
pub open spec fn no_part_names_this(ty: TypeExpr) -> bool {
    match ty.shape {
        TypeShape::Array(elem) => !mentions_this(elem.tokens@),
        TypeShape::Group(elem) => !mentions_this(elem.tokens@),
        TypeShape::Paren(elem) => !mentions_this(elem.tokens@),
        TypeShape::Slice(elem) => !mentions_this(elem.tokens@),
        TypeShape::Ptr { mutable, elem } => !mentions_this(elem.tokens@),
        TypeShape::Reference { mutable, elem } => !mentions_this(elem.tokens@),
        TypeShape::Tuple(elems) => forall|i: int|
            0 <= i < elems.len() ==> !mentions_this((#[trigger] elems[i]).tokens@),
        TypeShape::Path { qself, segments } => {
            &&& match qself {
                Some(q) => !mentions_this(q.tokens@),
                None => true,
            }
            &&& forall|i: int|
                0 <= i < segments.len() ==> no_argument_names_this((#[trigger] segments[i]).arguments)
        },
        _ => true,
    }
}

/// Whether none of the types among the arguments of a path segment names
/// `'this`.
pub open spec fn no_argument_names_this(arguments: PathArguments) -> bool {
    match arguments {
        PathArguments::Empty => true,
        PathArguments::AngleBracketed(args) => forall|i: int|
            0 <= i < args.len() ==> match (#[trigger] args[i]) {
                GenericArgument::Type(ty) => !mentions_this(ty.tokens@),
                _ => true,
            },
        PathArguments::Parenthesized { inputs, output } => {
            &&& forall|i: int| 0 <= i < inputs.len() ==> !mentions_this((#[trigger] inputs[i]).tokens@)
            &&& match output {
                Some(ty) => !mentions_this(ty.tokens@),
                None => true,
            }
        },
    }
}

/// Whether the tokens of `ty` agree with its shape: they name `'this`
/// wherever the tokens of a type that stands directly inside `ty` do. This
/// holds of every type whose tokens are those it is written with, since the
/// tokens of a part are among the tokens of the whole.
pub open spec fn tokens_cover_parts(ty: TypeExpr) -> bool {
    mentions_this(ty.tokens@) || no_part_names_this(ty)
}

/// A mutable reference whose tokens agree with its shape is covariant
/// exactly if its target does not name `'this`.
pub proof fn lemma_mutable_reference(ty: TypeExpr)
    requires
        tokens_cover_parts(ty),
        ty.shape is Reference,
        ty.shape->Reference_mutable,
    ensures
        covariance(ty) == Some(!mentions_this(ty.shape->Reference_elem.tokens@)),
{
}

/// An immutable reference or pointer whose tokens agree with its shape is
/// what its target is.
pub proof fn lemma_shared_reference_follows_target(ty: TypeExpr)
    requires
        tokens_cover_parts(ty),
        (ty.shape is Reference && !ty.shape->Reference_mutable) || (ty.shape is Ptr
            && !ty.shape->Ptr_mutable),
    ensures
        ty.shape is Reference ==> covariance(ty) == covariance(*ty.shape->Reference_elem),
        ty.shape is Ptr ==> covariance(ty) == covariance(*ty.shape->Ptr_elem),
{
}

/// An array, a slice, a group or a type in parentheses whose tokens agree
/// with its shape is what its element is.
pub proof fn lemma_wrapper_follows_element(ty: TypeExpr)
    requires
        tokens_cover_parts(ty),
    ensures
        ty.shape is Array ==> covariance(ty) == covariance(*ty.shape->Array_0),
        ty.shape is Slice ==> covariance(ty) == covariance(*ty.shape->Slice_0),
        ty.shape is Group ==> covariance(ty) == covariance(*ty.shape->Group_0),
        ty.shape is Paren ==> covariance(ty) == covariance(*ty.shape->Paren_0),
{
}

/// A tuple whose tokens agree with its shape is not covariant exactly if one
/// of its elements is not, and is covariant exactly if all of them are.
pub proof fn lemma_tuple_combines_elements(ty: TypeExpr)
    requires
        tokens_cover_parts(ty),
        ty.shape is Tuple,
    ensures
        covariance(ty) == Some(false) <==> exists|i: int|
            0 <= i < ty.shape->Tuple_0.len() && covariance(#[trigger] ty.shape->Tuple_0[i]) == Some(
                false,
            ),
        covariance(ty) == Some(true) <==> forall|i: int|
            0 <= i < ty.shape->Tuple_0.len() ==> covariance(#[trigger] ty.shape->Tuple_0[i])
                == Some(true),
{
    let elems = ty.shape->Tuple_0;
    if !mentions_this(ty.tokens@) {
        assert forall|i: int| 0 <= i < elems.len() implies covariance(#[trigger] elems[i]) == Some(
            true,
        ) by {
            assert(!mentions_this(elems[i].tokens@));
        }
    } else if covariance(ty) == Some(true) {
        assert forall|i: int| 0 <= i < elems.len() implies covariance(#[trigger] elems[i]) == Some(
            true,
        ) by {
            match covariance(elems[i]) {
                Some(true) => {},
                Some(false) => {
                    assert(exists|j: int|
                        0 <= j < elems.len() && covariance(#[trigger] elems[j]) == Some(false));
                },
                None => {
                    assert(exists|j: int|
                        0 <= j < elems.len() && covariance(#[trigger] elems[j]) is None);
                },
            }
        }
    }
}

fn arguments_covariance(args: &Vec<GenericArgument>, in_container: bool) -> (r: Verdict)
    ensures
        r == arguments_verdict(args@, in_container, 0),
    decreases args,
{
    let mut i: usize = 0;
    while i < args.len()
        invariant
            i <= args.len(),
            arguments_verdict(args@, in_container, 0) == arguments_verdict(
                args@,
                in_container,
                i as int,
            ),
        decreases args.len() - i,
    {
        assert(arguments_verdict(args@, in_container, i as int) == match argument_verdict(
            args@[i as int],
            in_container,
        ) {
            Verdict::Open => arguments_verdict(args@, in_container, i + 1),
            settled => settled,
        });
        match &args[i] {
            GenericArgument::Type(ty) => {
                if in_container {
                    match type_is_covariant_over_this_lifetime(ty) {
                        Some(true) => {},
                        other => {
                            return Verdict::Settled(other);
                        },
                    }
                } else if uses_this_lifetime(&ty.tokens) {
                    return Verdict::Settled(None);
                }
            },
            GenericArgument::Lifetime(name) => {
                if *name == String::from_str("this") && !in_container {
                    return Verdict::Settled(None);
                }
            },
            GenericArgument::Other => {},
        }
        i += 1;
    }
    Verdict::Open
}

fn segment_covariance(segment: &PathSegment, in_container: bool) -> (r: Verdict)
    ensures
        r == segment_verdict(*segment, in_container),
    decreases segment,
{
    match &segment.arguments {
        PathArguments::Empty => Verdict::Open,
        PathArguments::AngleBracketed(args) => arguments_covariance(args, in_container),
        PathArguments::Parenthesized { inputs, output } => {
            let mut i: usize = 0;
            while i < inputs.len()
                invariant
                    i <= inputs.len(),
                    segment.arguments == (PathArguments::Parenthesized {
                        inputs: *inputs,
                        output: *output,
                    }),
                    forall|j: int| 0 <= j < i ==> !mentions_this((#[trigger] inputs[j]).tokens@),
                decreases inputs.len() - i,
            {
                if uses_this_lifetime(&inputs[i].tokens) {
                    assert(mentions_this(inputs[i as int].tokens@));
                    assert(segment.arguments->Parenthesized_inputs == *inputs);
                    return Verdict::Settled(None);
                }
                i += 1;
            }
            match output {
                Some(ty) => {
                    if uses_this_lifetime(&ty.tokens) {
                        return Verdict::Settled(None);
                    }
                },
                None => {},
            }
            Verdict::Open
        },
    }
}

fn segments_covariance(segments: &Vec<PathSegment>, in_container: bool) -> (r: Verdict)
    ensures
        r == segments_verdict(segments@, in_container, 0),
    decreases segments,
{
    let mut i: usize = 0;
    while i < segments.len()
        invariant
            i <= segments.len(),
            segments_verdict(segments@, in_container, 0) == segments_verdict(
                segments@,
                in_container,
                i as int,
            ),
        decreases segments.len() - i,
    {
        assert(segments_verdict(segments@, in_container, i as int) == match segment_verdict(
            segments@[i as int],
            in_container,
        ) {
            Verdict::Open => segments_verdict(segments@, in_container, i + 1),
            settled => settled,
        });
        match segment_covariance(&segments[i], in_container) {
            Verdict::Open => {},
            settled => {
                return settled;
            },
        }
        i += 1;
    }
    Verdict::Open
}

/// Returns `Some(true)` or `Some(false)` where the type is known to be
/// covariant or not covariant over `'this`, and `None` where its shape does
/// not tell.
pub fn type_is_covariant_over_this_lifetime(ty: &TypeExpr) -> (r: Option<bool>)
    ensures
        r == covariance(*ty),
    decreases ty,
{
    // A type that never names 'this has nothing to be covariant over.
    if !uses_this_lifetime(&ty.tokens) {
        return Some(true);
    }
    match &ty.shape {
        TypeShape::Array(elem) => type_is_covariant_over_this_lifetime(elem),
        TypeShape::Group(elem) => type_is_covariant_over_this_lifetime(elem),
        TypeShape::Paren(elem) => type_is_covariant_over_this_lifetime(elem),
        TypeShape::Slice(elem) => type_is_covariant_over_this_lifetime(elem),
        TypeShape::Path { qself, segments } => {
            match qself {
                Some(q) => {
                    match type_is_covariant_over_this_lifetime(q) {
                        Some(true) => {},
                        other => {
                            return other;
                        },
                    }
                },
                None => {},
            }
            // Box, Arc and Rc are covariant in what they hold.
            let in_container = apparent_std_container_type(ty).is_some();
            match segments_covariance(segments, in_container) {
                Verdict::Settled(c) => c,
                Verdict::Open => Some(true),
            }
        },
        TypeShape::Ptr { mutable, elem } => {
            if *mutable {
                Some(false)
            } else {
                type_is_covariant_over_this_lifetime(elem)
            }
        },
        // The lifetime of the reference itself can always be shortened.
        TypeShape::Reference { mutable, elem } => {
            if *mutable {
                Some(!uses_this_lifetime(&elem.tokens))
            } else {
                type_is_covariant_over_this_lifetime(elem)
            }
        },
        TypeShape::Tuple(elems) => {
            let mut result = Some(true);
            let mut i: usize = 0;
            while i < elems.len()
                invariant
                    i <= elems.len(),
                    ty.shape == TypeShape::Tuple(*elems),
                    mentions_this(ty.tokens@),
                    forall|j: int| 0 <= j < i ==> covariance(#[trigger] elems[j]) != Some(false),
                    result == if exists|j: int| 0 <= j < i && covariance(#[trigger] elems[j]) is None {
                        None::<bool>
                    } else {
                        Some(true)
                    },
                decreases elems.len() - i,
            {
                match type_is_covariant_over_this_lifetime(&elems[i]) {
                    Some(true) => {},
                    Some(false) => {
                        assert(covariance(elems[i as int]) == Some(false));
                        return Some(false);
                    },
                    None => {
                        assert(covariance(elems[i as int]) is None);
                        result = None;
                    },
                }
                i += 1;
            }
            result
        },
        _ => None,
    }
}

} // verus!
