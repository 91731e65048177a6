//! The analysed form of a declaration, and what each field contributes to the
//! generated items.

use vstd::prelude::*;
use vstd::string::*;
use crate::diagnostics::{Error, ErrorKind};
use crate::syntax::{
    Attribute, GenericParam, Generics, TypeExpr, Visibility, VisibilityView,
    generic_params_tokens,
};
use crate::tokens::{Emit, TokenStream, TokenTree, prepend_stream, separated, terminated, tokens};
use crate::utils::{
    consumer_name, consumer_type, generic_arguments, make_generic_arguments,
    make_generic_consumers, replace_this, replace_this_with_lifetime,
};

verus! {

/// The options given to the attribute.
#[derive(Clone, Copy, Debug, PartialEq, Eq, Structural)]
pub struct Options {
    /// Hide the generated items from the documentation.
    pub do_no_doc: bool,
    /// Give the builders and the aggregates the visibility of the struct.
    pub do_pub_extras: bool,
}

/// How the other fields of the struct use a field.
#[derive(Clone, Copy, Debug, PartialEq, Eq, Structural)]
pub enum FieldType {
    /// Not borrowed by other parts of the struct.
    Tail,
    /// Immutably borrowed by at least one other field.
    Borrowed,
    /// Mutably borrowed by one other field.
    BorrowedMut,
}

impl FieldType {
    /// Whether no other field borrows this one.
    pub fn is_tail(self) -> (r: bool)
        ensures
            r == (self == FieldType::Tail),
    {
        match self {
            FieldType::Tail => true,
            _ => false,
        }
    }
}

/// One borrow of an earlier field: which field, and whether mutably.
#[derive(Clone, Copy, Debug, PartialEq, Eq, Structural)]
pub struct BorrowRequest {
    pub index: usize,
    pub mutable: bool,
}

/// A trait that can be derived for a self-referencing struct.
#[derive(Clone, Copy, Debug, PartialEq, Eq, Structural)]
pub enum Derive {
    Debug,
    PartialEq,
    Eq,
}

/// The flavour of a constructor.
#[derive(Clone, Copy, Debug, PartialEq, Eq, Structural)]
pub enum BuilderType {
    Sync,
    Async,
    AsyncSend,
}

impl BuilderType {
    /// Whether the constructor awaits its builders.
    pub fn is_async(&self) -> (r: bool)
        ensures
            r == (*self != BuilderType::Sync),
    {
        match self {
            BuilderType::Sync => false,
            _ => true,
        }
    }
}

/// The role of a field after one more borrow of it, or the conflict that the
/// borrow runs into.
pub open spec fn borrow_role(role: FieldType, mutable: bool) -> Result<FieldType, ErrorKind> {
    if mutable {
        match role {
            FieldType::Borrowed => Err(ErrorKind::MutableAfterImmutable),
            FieldType::BorrowedMut => Err(ErrorKind::MutableTwice),
            FieldType::Tail => Ok(FieldType::BorrowedMut),
        }
    } else {
        match role {
            FieldType::BorrowedMut => Err(ErrorKind::ImmutableAfterMutable),
            _ => Ok(FieldType::Borrowed),
        }
    }
}

/// The role that the borrows in `edges`, taken in order, leave field `j` with.
pub open spec fn role_of(edges: Seq<BorrowRequest>, j: int) -> FieldType
    decreases edges.len(),
{
    if edges.len() == 0 {
        FieldType::Tail
    } else {
        let before = role_of(edges.drop_last(), j);
        if edges.last().index == j {
            match borrow_role(before, edges.last().mutable) {
                Ok(role) => role,
                Err(_) => before,
            }
        } else {
            before
        }
    }
}

/// Whether none of the borrows in `edges`, taken in order, conflicts with the
/// ones before it.
#[verifier::opaque]
pub open spec fn accepted(edges: Seq<BorrowRequest>) -> bool {
    forall|k: int|
        0 <= k < edges.len() ==> borrow_role(
            role_of(edges.take(k), edges[k].index as int),
            (#[trigger] edges[k]).mutable,
        ) is Ok
}

/// The borrows of all the fields, in declaration order.
pub open spec fn all_edges(fields: Seq<StructFieldInfo>) -> Seq<BorrowRequest>
    decreases fields.len(),
{
    if fields.len() == 0 {
        Seq::empty()
    } else {
        all_edges(fields.drop_last()) + fields.last().borrows@
    }
}

/// No borrows at all do not conflict.
pub proof fn lemma_accepted_empty()
    ensures
        accepted(Seq::<BorrowRequest>::empty()),
{
    reveal(accepted);
}

/// A prefix of borrows that do not conflict holds no conflict either.
pub proof fn lemma_accepted_prefix(edges: Seq<BorrowRequest>, n: int)
    requires
        accepted(edges),
        0 <= n <= edges.len(),
    ensures
        accepted(edges.take(n)),
{
    reveal(accepted);
    let prefix = edges.take(n);
    assert forall|k: int| 0 <= k < prefix.len() implies borrow_role(
        role_of(prefix.take(k), prefix[k].index as int),
        (#[trigger] prefix[k]).mutable,
    ) is Ok by {
        assert(prefix.take(k) =~= edges.take(k));
        assert(prefix[k] == edges[k]);
    }
}

/// The last of the borrows does not conflict with the ones before it, which
/// do not conflict among themselves.
pub proof fn lemma_accepted_last(edges: Seq<BorrowRequest>)
    requires
        accepted(edges),
        edges.len() > 0,
    ensures
        accepted(edges.drop_last()),
        borrow_role(role_of(edges.drop_last(), edges.last().index as int), edges.last().mutable) is Ok,
{
    let last = edges.len() - 1;
    assert(edges.drop_last() =~= edges.take(last));
    lemma_accepted_prefix(edges, last);
    reveal(accepted);
    assert(borrow_role(role_of(edges.take(last), edges[last].index as int), edges[last].mutable) is Ok);
}

/// Borrows that do not conflict, and one more that does not conflict with
/// them, do not conflict.
pub proof fn lemma_accepted_push(edges: Seq<BorrowRequest>, edge: BorrowRequest)
    requires
        accepted(edges),
        borrow_role(role_of(edges, edge.index as int), edge.mutable) is Ok,
    ensures
        accepted(edges.push(edge)),
{
    reveal(accepted);
    let longer = edges.push(edge);
    assert forall|k: int| 0 <= k < longer.len() implies borrow_role(
        role_of(longer.take(k), longer[k].index as int),
        (#[trigger] longer[k]).mutable,
    ) is Ok by {
        if k < edges.len() {
            assert(longer.take(k) =~= edges.take(k));
            assert(longer[k] == edges[k]);
        } else {
            assert(longer.take(k) =~= edges);
        }
    }
}

/// Whether no borrow in `edges` names field `j`.
pub open spec fn unborrowed(edges: Seq<BorrowRequest>, j: int) -> bool {
    forall|k: int| 0 <= k < edges.len() ==> (#[trigger] edges[k]).index != j
}

/// Whether every borrow in `edges` that names field `j` is immutable.
pub open spec fn only_shared(edges: Seq<BorrowRequest>, j: int) -> bool {
    forall|k: int| 0 <= k < edges.len() && (#[trigger] edges[k]).index == j ==> !edges[k].mutable
}

/// Whether one borrow in `edges` names field `j`, a mutable one, and no other.
pub open spec fn only_exclusive(edges: Seq<BorrowRequest>, j: int) -> bool {
    exists|k: int|
        0 <= k < edges.len() && (#[trigger] edges[k]).index == j && edges[k].mutable && forall|
            other: int,
        |
            0 <= other < edges.len() && other != k ==> (#[trigger] edges[other]).index != j
}

/// Among borrows that do not conflict, a field is a tail field exactly if no
/// borrow names it; the borrows of an immutably borrowed field are all
/// immutable; and a mutably borrowed field is named by one borrow only, a
/// mutable one.
pub proof fn lemma_roles_follow_borrows(edges: Seq<BorrowRequest>, j: int)
    requires
        accepted(edges),
    ensures
        role_of(edges, j) == FieldType::Tail <==> unborrowed(edges, j),
        role_of(edges, j) == FieldType::Borrowed ==> only_shared(edges, j),
        role_of(edges, j) == FieldType::BorrowedMut ==> only_exclusive(edges, j),
    decreases edges.len(),
{
    if edges.len() > 0 {
        let shorter = edges.drop_last();
        let last = edges.len() - 1;
        let edge = edges[last];
        lemma_accepted_last(edges);
        lemma_roles_follow_borrows(shorter, j);
        let before = role_of(shorter, j);
        if edge.index == j {
            assert(!unborrowed(edges, j));
            if edge.mutable {
                assert(before == FieldType::Tail);
                assert(unborrowed(shorter, j));
                assert forall|other: int| 0 <= other < edges.len() && other != last implies (
                #[trigger] edges[other]).index != j by {
                    assert(shorter[other] == edges[other]);
                }
                assert(only_exclusive(edges, j));
            } else {
                assert(before != FieldType::BorrowedMut);
                assert forall|k: int|
                    0 <= k < edges.len() && (#[trigger] edges[k]).index == j implies !edges[k].mutable by {
                    if k < last {
                        assert(shorter[k] == edges[k]);
                        if before == FieldType::Tail {
                            assert(unborrowed(shorter, j));
                        } else {
                            assert(only_shared(shorter, j));
                        }
                    }
                }
            }
        } else {
            assert(role_of(edges, j) == before);
            if unborrowed(shorter, j) {
                assert forall|k: int| 0 <= k < edges.len() implies (#[trigger] edges[k]).index != j by {
                    if k < last {
                        assert(shorter[k] == edges[k]);
                    }
                }
            } else {
                let k = choose|k: int| 0 <= k < shorter.len() && (#[trigger] shorter[k]).index == j;
                assert(edges[k] == shorter[k]);
            }
            if before == FieldType::Borrowed {
                assert forall|k: int|
                    0 <= k < edges.len() && (#[trigger] edges[k]).index == j implies !edges[k].mutable by {
                    assert(shorter[k] == edges[k]);
                }
            }
            if before == FieldType::BorrowedMut {
                let k = choose|k: int|
                    0 <= k < shorter.len() && (#[trigger] shorter[k]).index == j && shorter[k].mutable
                        && forall|other: int|
                        0 <= other < shorter.len() && other != k ==> (#[trigger] shorter[other]).index
                            != j;
                assert(edges[k] == shorter[k]);
                assert forall|other: int| 0 <= other < edges.len() && other != k implies (
                #[trigger] edges[other]).index != j by {
                    if other < last {
                        assert(shorter[other] == edges[other]);
                    }
                }
            }
        }
    }
}

/// Two different borrows of one field are both immutable, or the declaration
/// is rejected: a mutable borrow stands beside no other borrow of its field.
pub proof fn lemma_mutable_borrow_excludes_others(edges: Seq<BorrowRequest>, k1: int, k2: int)
    requires
        accepted(edges),
        0 <= k1 < edges.len(),
        0 <= k2 < edges.len(),
        k1 != k2,
        edges[k1].index == edges[k2].index,
    ensures
        !edges[k1].mutable,
        !edges[k2].mutable,
{
    let j = edges[k1].index as int;
    lemma_roles_follow_borrows(edges, j);
    match role_of(edges, j) {
        FieldType::Tail => {
            assert(unborrowed(edges, j));
        },
        FieldType::Borrowed => {
            assert(only_shared(edges, j));
        },
        FieldType::BorrowedMut => {
            assert(only_exclusive(edges, j));
        },
    }
}

/// A further immutable borrow of a field that is not mutably borrowed is
/// accepted, and leaves the field immutably borrowed.
pub proof fn lemma_shared_borrow_accepted(edges: Seq<BorrowRequest>, index: usize)
    requires
        accepted(edges),
        role_of(edges, index as int) != FieldType::BorrowedMut,
    ensures
        accepted(edges.push(BorrowRequest { index, mutable: false })),
        role_of(edges.push(BorrowRequest { index, mutable: false }), index as int)
            == FieldType::Borrowed,
{
    let edge = BorrowRequest { index, mutable: false };
    lemma_accepted_push(edges, edge);
    assert(edges.push(edge).drop_last() =~= edges);
}

/// A borrow of a mutably borrowed field, and a mutable borrow of a borrowed
/// field, are rejected.
pub proof fn lemma_conflicting_borrow_rejected(edges: Seq<BorrowRequest>, index: usize, mutable: bool)
    requires
        role_of(edges, index as int) == FieldType::BorrowedMut || (mutable && role_of(
            edges,
            index as int,
        ) == FieldType::Borrowed),
    ensures
        !accepted(edges.push(BorrowRequest { index, mutable })),
{
    let longer = edges.push(BorrowRequest { index, mutable });
    if accepted(longer) {
        lemma_accepted_last(longer);
        assert(longer.drop_last() =~= edges);
    }
}

/// The place of borrow number `k` of field number `i` among the borrows of
/// all the fields.
pub open spec fn edge_position(fields: Seq<StructFieldInfo>, i: int, k: int) -> int {
    all_edges(fields.take(i)).len() + k
}

/// The borrows of the first fields stand first among the borrows of all the
/// fields.
pub proof fn lemma_all_edges_prefix(fields: Seq<StructFieldInfo>, i: int)
    requires
        0 <= i <= fields.len(),
    ensures
        all_edges(fields.take(i)).len() <= all_edges(fields).len(),
        all_edges(fields.take(i)) == all_edges(fields).take(all_edges(fields.take(i)).len() as int),
    decreases fields.len() - i,
{
    if i == fields.len() {
        assert(fields.take(i) =~= fields);
        assert(all_edges(fields).take(all_edges(fields).len() as int) =~= all_edges(fields));
    } else {
        lemma_all_edges_prefix(fields, i + 1);
        let longer = fields.take(i + 1);
        assert(longer.drop_last() =~= fields.take(i));
        let n = all_edges(fields.take(i)).len() as int;
        assert(all_edges(longer).take(n) =~= all_edges(fields.take(i)));
        assert(all_edges(fields).take(all_edges(longer).len() as int).take(n) =~= all_edges(
            fields,
        ).take(n));
    }
}

/// Each borrow of each field stands among the borrows of all the fields, at
/// its place.
pub proof fn lemma_edge_in_all_edges(fields: Seq<StructFieldInfo>, i: int, k: int)
    requires
        0 <= i < fields.len(),
        0 <= k < fields[i].borrows.len(),
    ensures
        0 <= edge_position(fields, i, k) < all_edges(fields).len(),
        all_edges(fields)[edge_position(fields, i, k)] == fields[i].borrows[k],
{
    lemma_all_edges_prefix(fields, i + 1);
    let longer = fields.take(i + 1);
    assert(longer.drop_last() =~= fields.take(i));
    assert(longer.last() == fields[i]);
    let p = edge_position(fields, i, k);
    assert(all_edges(longer)[p] == fields[i].borrows[k]);
    assert(all_edges(fields).take(all_edges(longer).len() as int)[p] == all_edges(fields)[p]);
}

/// Each of the borrows of all the fields is a borrow of one of the fields.
pub proof fn lemma_edge_has_origin(fields: Seq<StructFieldInfo>, p: int) -> (origin: (int, int))
    requires
        0 <= p < all_edges(fields).len(),
    ensures
        0 <= origin.0 < fields.len(),
        0 <= origin.1 < fields[origin.0].borrows.len(),
        all_edges(fields)[p] == fields[origin.0].borrows[origin.1],
        p == edge_position(fields, origin.0, origin.1),
    decreases fields.len(),
{
    let shorter = fields.drop_last();
    let last = fields.len() - 1;
    assert(fields.take(last) =~= shorter);
    if p < all_edges(shorter).len() {
        let origin = lemma_edge_has_origin(shorter, p);
        assert(shorter.take(origin.0) =~= fields.take(origin.0));
        origin
    } else {
        (last, p - all_edges(shorter).len())
    }
}

/// The places of the borrows grow with the fields and, within a field, with
/// the borrows: two borrows have the same place only if they are the same.
pub proof fn lemma_edge_positions_differ(fields: Seq<StructFieldInfo>, i1: int, k1: int, i2: int, k2: int)
    requires
        0 <= i1 < fields.len(),
        0 <= k1 < fields[i1].borrows.len(),
        0 <= i2 < fields.len(),
        0 <= k2 < fields[i2].borrows.len(),
        i1 != i2 || k1 != k2,
    ensures
        edge_position(fields, i1, k1) != edge_position(fields, i2, k2),
{
    if i1 < i2 {
        lemma_edge_before_later_field(fields, i1, k1, i2);
    } else if i2 < i1 {
        lemma_edge_before_later_field(fields, i2, k2, i1);
    }
}

proof fn lemma_edge_before_later_field(fields: Seq<StructFieldInfo>, i: int, k: int, later: int)
    requires
        0 <= i < later <= fields.len(),
        0 <= k < fields[i].borrows.len(),
    ensures
        edge_position(fields, i, k) < all_edges(fields.take(later)).len(),
    decreases later - i,
{
    let longer = fields.take(later);
    assert(longer.drop_last() =~= fields.take(later - 1));
    if later - 1 == i {
        assert(longer.last() == fields[i]);
    } else {
        lemma_edge_before_later_field(fields, i, k, later - 1);
    }
}

/// The analysed form of one declaration.
#[derive(Debug)]
pub struct StructInfo {
    pub derives: Vec<Derive>,
    pub ident: String,
    /// The name of the struct that stores the fields.
    pub internal_ident: String,
    pub generics: Generics,
    pub vis: Visibility,
    pub fields: Vec<StructFieldInfo>,
    /// The lifetime that stands for `'this` inside the generated code.
    pub first_lifetime: String,
    pub attributes: Vec<Attribute>,
}

/// One field of the analysed declaration.
#[derive(Debug)]
pub struct StructFieldInfo {
    pub name: String,
    pub typ: TypeExpr,
    pub field_type: FieldType,
    pub vis: Visibility,
    pub borrows: Vec<BorrowRequest>,
    /// Whether the field carries a `borrows` attribute. With no borrow in it
    /// the field needs no builder, and still is no head of the struct.
    pub self_referencing: bool,
    /// Whether the field's type is covariant over `'this`, where that is known
    /// or stated.
    pub covariant: Option<bool>,
}

/// The mathematical value of a [`StructFieldInfo`].
pub struct FieldView {
    pub name: Seq<char>,
    pub typ: TypeExpr,
    pub field_type: FieldType,
    pub vis: VisibilityView,
    pub borrows: Seq<BorrowRequest>,
    pub self_referencing: bool,
    pub covariant: Option<bool>,
}

impl View for StructFieldInfo {
    type V = FieldView;

    open spec fn view(&self) -> FieldView {
        FieldView {
            name: self.name@,
            typ: self.typ,
            field_type: self.field_type,
            vis: self.vis@,
            borrows: self.borrows@,
            self_referencing: self.self_referencing,
            covariant: self.covariant,
        }
    }
}

/// The mathematical value of a [`StructInfo`].
pub struct StructInfoView {
    pub derives: Seq<Derive>,
    pub ident: Seq<char>,
    pub internal_ident: Seq<char>,
    pub generics: Generics,
    pub vis: VisibilityView,
    pub fields: Seq<FieldView>,
    pub first_lifetime: Seq<char>,
    pub attributes: Seq<Attribute>,
}

impl View for StructInfo {
    type V = StructInfoView;

    open spec fn view(&self) -> StructInfoView {
        StructInfoView {
            derives: self.derives@,
            ident: self.ident@,
            internal_ident: self.internal_ident@,
            generics: self.generics,
            vis: self.vis@,
            fields: Seq::new(self.fields.len() as nat, |i: int| self.fields[i]@),
            first_lifetime: self.first_lifetime@,
            attributes: self.attributes@,
        }
    }
}

/// The names of the fields, in declaration order.
pub open spec fn field_names(fields: Seq<StructFieldInfo>) -> Seq<Seq<char>> {
    Seq::new(fields.len(), |i: int| fields[i].name@)
}

/// The roles of the fields, in declaration order.
pub open spec fn field_roles(fields: Seq<StructFieldInfo>) -> Seq<FieldType> {
    Seq::new(fields.len(), |i: int| fields[i].field_type)
}

/// The type of a constructor argument.
#[derive(Debug)]
pub enum ArgType {
    /// The value of the field, passed directly.
    Plain(TokenStream),
    /// A bound on the function that builds the field from what it borrows.
    TraitBound(TokenStream),
}

impl StructInfo {
    /// What holds of every analysed declaration: at least two fields, borrows
    /// only of fields declared earlier, no conflict between the borrows, each
    /// field's role the one its borrowers give it, and one field borrowed.
    pub open spec fn wf(self) -> bool {
        &&& self.fields.len() >= 2
        &&& forall|i: int, k: int|
            0 <= i < self.fields.len() && 0 <= k < self.fields[i].borrows.len() ==> (
            #[trigger] self.fields[i].borrows[k]).index < i
        &&& forall|i: int|
            0 <= i < self.fields.len() && (#[trigger] self.fields[i]).borrows.len() > 0
                ==> self.fields[i].self_referencing
        &&& accepted(all_edges(self.fields@))
        &&& forall|j: int|
            0 <= j < self.fields.len() ==> (#[trigger] self.fields[j]).field_type == role_of(
                all_edges(self.fields@),
                j,
            )
        &&& exists|j: int|
            0 <= j < self.fields.len() && (#[trigger] self.fields[j]).field_type
                != FieldType::Tail
    }

    /// The lifetime to use in place of `'this` in the internal items. It never
    /// shows in what the user calls.
    pub fn fake_lifetime(&self) -> (r: String)
        ensures
            r@ == self.first_lifetime@,
    {
        self.first_lifetime.clone()
    }

    /// The generic parameters of the struct.
    pub fn generic_params(&self) -> (r: &Vec<GenericParam>)
        ensures
            *r == self.generics.params,
    {
        &self.generics.params
    }

    /// `<'outer_borrow, 'this, ...>`, with the struct's own parameters after
    /// the two lifetimes.
    pub open spec fn borrowed_generic_params_tokens(self) -> Seq<TokenTree> {
        if self.generics.params.len() == 0 {
            tokens().punct('<').lifetime("outer_borrow"@).punct(',').lifetime("this"@).punct('>')
        } else {
            tokens().punct('<').lifetime("outer_borrow"@).punct(',').lifetime("this"@).punct(',')
                .splice(generic_params_tokens(self.generics)).punct('>')
        }
    }

    /// The generic parameters with `'outer_borrow` and `'this` in front.
    pub fn borrowed_generic_params(&self) -> (out: TokenStream)
        ensures
            out@ == self.borrowed_generic_params_tokens(),
    {
        if self.generics.params.len() == 0 {
            let mut out = TokenStream::new();
            out.push_punct('<');
            out.push_lifetime("outer_borrow");
            out.push_punct(',');
            out.push_lifetime("this");
            out.push_punct('>');
            out
        } else {
            let mut out = TokenStream::new();
            out.push_punct('<');
            out.push_lifetime("outer_borrow");
            out.push_punct(',');
            out.push_lifetime("this");
            out.push_punct(',');
            out.append(self.generics.params_tokens());
            out.push_punct('>');
            out
        }
    }

    /// `<'_, '_, A, B,>`: the parameters by name only, after two inferred
    /// lifetimes.
    ///
    /// ```text
    /// <'_, '_, #params>
    /// ```
    pub open spec fn borrowed_generic_params_inferred_tokens(self) -> Seq<TokenTree> {
        tokens().punct('<').lifetime("_"@).punct(',').lifetime("_"@).punct(',')
            .splice(terminated(generic_arguments(self.generics), ',')).punct('>')
    }

    /// The generic parameters without bounds, with `'_` in front twice.
    pub fn borrowed_generic_params_inferred(&self) -> (out: TokenStream)
        ensures
            out@ == self.borrowed_generic_params_inferred_tokens(),
    {
        let arguments = self.generic_arguments();
        let mut out = TokenStream::new();
        out.push_punct('<');
        out.push_lifetime("_");
        out.push_punct(',');
        out.push_lifetime("_");
        out.push_punct(',');
        out.append(TokenStream::terminated(&arguments, ','));
        out.push_punct('>');
        out
    }

    /// The arguments that fill the places of the generic parameters.
    pub fn generic_arguments(&self) -> (arguments: Vec<TokenStream>)
        ensures
            arguments.deep_view() == generic_arguments(self.generics),
    {
        make_generic_arguments(&self.generics)
    }

    /// `'outer_borrow`, `'this`, and then the struct's own arguments.
    pub open spec fn borrowed_generic_argument_list(self) -> Seq<Seq<TokenTree>> {
        seq![tokens().lifetime("outer_borrow"@)] + (seq![tokens().lifetime("this"@)]
            + generic_arguments(self.generics))
    }

    /// The generic arguments with `'outer_borrow` and `'this` in front.
    pub fn borrowed_generic_arguments(&self) -> (arguments: Vec<TokenStream>)
        ensures
            arguments.deep_view() == self.borrowed_generic_argument_list(),
    {
        let mut arguments = self.generic_arguments();
        let mut this = TokenStream::new();
        this.push_lifetime("this");
        prepend_stream(&mut arguments, this);
        let mut outer = TokenStream::new();
        outer.push_lifetime("outer_borrow");
        prepend_stream(&mut arguments, outer);
        arguments
    }

    /// The marker fields that use up the generic parameters: for each
    /// parameter, the marker's type and its name.
    pub fn generic_consumers(&self) -> (consumers: Vec<(TokenStream, String)>)
        ensures
            consumers.len() == self.generics.params.len(),
            forall|j: int|
                0 <= j < consumers.len() ==> {
                    &&& (#[trigger] consumers[j]).0@ == consumer_type(self.generics.params[j])
                    &&& consumers[j].1@ == consumer_name(self.generics.params[j])
                },
    {
        make_generic_consumers(&self.generics)
    }
}

/// Role classification: in an analysed declaration, a field is a tail field
/// exactly if no field names it in a borrow, and every borrow names a field
/// declared earlier.
pub proof fn lemma_tail_exactly_if_unborrowed(info: StructInfo, j: int)
    requires
        info.wf(),
        0 <= j < info.fields.len(),
    ensures
        info.fields[j].field_type == FieldType::Tail <==> forall|i: int, k: int|
            0 <= i < info.fields.len() && 0 <= k < info.fields[i].borrows.len() ==> (
            #[trigger] info.fields[i].borrows[k]).index != j,
        forall|i: int, k: int|
            0 <= i < info.fields.len() && 0 <= k < info.fields[i].borrows.len() ==> (
            #[trigger] info.fields[i].borrows[k]).index < i,
{
    let edges = all_edges(info.fields@);
    lemma_roles_follow_borrows(edges, j);
    if unborrowed(edges, j) {
        assert forall|i: int, k: int|
            0 <= i < info.fields.len() && 0 <= k < info.fields[i].borrows.len() implies (
        #[trigger] info.fields[i].borrows[k]).index != j by {
            lemma_edge_in_all_edges(info.fields@, i, k);
        }
    } else {
        let p = choose|p: int| 0 <= p < edges.len() && (#[trigger] edges[p]).index == j;
        let origin = lemma_edge_has_origin(info.fields@, p);
        assert(info.fields[origin.0].borrows[origin.1].index == j);
    }
}

/// Role classification: in an analysed declaration, two different borrows of
/// one field are both immutable, and leave the field immutably borrowed; a
/// field that is borrowed mutably is borrowed once.
pub proof fn lemma_shared_or_exclusive(info: StructInfo, i1: int, k1: int, i2: int, k2: int)
    requires
        info.wf(),
        0 <= i1 < info.fields.len(),
        0 <= k1 < info.fields[i1].borrows.len(),
        0 <= i2 < info.fields.len(),
        0 <= k2 < info.fields[i2].borrows.len(),
        i1 != i2 || k1 != k2,
        info.fields[i1].borrows[k1].index == info.fields[i2].borrows[k2].index,
    ensures
        !info.fields[i1].borrows[k1].mutable,
        !info.fields[i2].borrows[k2].mutable,
        info.fields[info.fields[i1].borrows[k1].index as int].field_type == FieldType::Borrowed,
{
    let edges = all_edges(info.fields@);
    let target = info.fields[i1].borrows[k1].index as int;
    lemma_edge_in_all_edges(info.fields@, i1, k1);
    lemma_edge_in_all_edges(info.fields@, i2, k2);
    lemma_edge_positions_differ(info.fields@, i1, k1, i2, k2);
    let p1 = edge_position(info.fields@, i1, k1);
    let p2 = edge_position(info.fields@, i2, k2);
    lemma_mutable_borrow_excludes_others(edges, p1, p2);
    lemma_roles_follow_borrows(edges, target);
    assert(info.fields[i1].borrows[k1].index < i1);
    if role_of(edges, target) == FieldType::Tail {
        assert(edges[p1].index == target);
    }
    if role_of(edges, target) == FieldType::BorrowedMut {
        assert(only_exclusive(edges, target));
    }
}

/// The type of the reference that a builder receives for one borrow.
pub open spec fn builder_param(target: StructFieldInfo, mutable: bool) -> Seq<TokenTree> {
    if mutable {
        tokens().punct('&').lifetime("this"@).ident("mut"@).splice(target.typ.tokens@)
    } else {
        tokens().punct('&').lifetime("this"@).splice(target.typ.tokens@)
    }
}

impl StructFieldInfo {
    /// `name_builder`
    pub open spec fn builder_ident(self) -> Seq<char> {
        self.name@ + "_builder"@
    }

    /// The name of the constructor argument that builds this field.
    pub fn builder_name(&self) -> (r: String)
        ensures
            r@ == self.builder_ident(),
    {
        self.name.clone().concat("_builder")
    }

    /// `name_illegal_static_reference`
    pub open spec fn illegal_ref_ident(self) -> Seq<char> {
        self.name@ + "_illegal_static_reference"@
    }

    /// The name of the local that holds the reference with the erased lifetime.
    pub fn illegal_ref_name(&self) -> (r: String)
        ensures
            r@ == self.illegal_ref_ident(),
    {
        self.name.clone().concat("_illegal_static_reference")
    }

    /// Whether another field borrows this one.
    pub fn is_borrowed(&self) -> (r: bool)
        ensures
            r == (self.field_type != FieldType::Tail),
    {
        !self.field_type.is_tail()
    }

    /// Whether another field borrows this one mutably.
    pub fn is_mutably_borrowed(&self) -> (r: bool)
        ensures
            r == (self.field_type == FieldType::BorrowedMut),
    {
        match self.field_type {
            FieldType::BorrowedMut => true,
            _ => false,
        }
    }

    /// `::ouroboros::macro_help::aliasable_boxed(name)`
    ///
    /// ```text
    /// ::ouroboros::macro_help::aliasable_boxed(#name)
    /// ```
    pub open spec fn boxed_tokens(self) -> Seq<TokenTree> {
        tokens().help("aliasable_boxed"@).parens(tokens().ident(self.name@))
    }

    /// The expression that moves the field's value into its address-stable box.
    pub fn boxed(&self) -> (out: TokenStream)
        ensures
            out@ == self.boxed_tokens(),
    {
        let mut out = TokenStream::new();
        out.push_help("aliasable_boxed");
        let mut args = TokenStream::new();
        args.push_ident(self.name.as_str());
        out.push_parens(args);
        out
    }

    /// The type the field is stored with: inside the address-stable box where
    /// another field borrows it, as declared where none does.
    pub open spec fn stored_type_tokens(self) -> Seq<TokenTree> {
        if self.field_type != FieldType::Tail {
            tokens().help("AliasableBox"@).punct('<').splice(self.typ.tokens@).punct('>')
        } else {
            tokens().splice(self.typ.tokens@)
        }
    }

    /// The type the field is stored with.
    pub fn stored_type(&self) -> (out: TokenStream)
        ensures
            out@ == self.stored_type_tokens(),
    {
        if self.is_borrowed() {
            let mut out = TokenStream::new();
            out.push_help("AliasableBox");
            out.push_punct('<');
            out.append_copy(&self.typ.tokens);
            out.push_punct('>');
            out
        } else {
            let mut out = TokenStream::new();
            out.append_copy(&self.typ.tokens);
            out
        }
    }

    /// `let name_illegal_static_reference = unsafe { change_lifetime(&*name) };`
    ///
    /// ```text
    /// let #ref_name = unsafe {
    ///     ::ouroboros::macro_help::change_lifetime(&*#field_name)
    /// };
    /// ```
    pub open spec fn illegal_static_reference_tokens(self) -> Seq<TokenTree> {
        tokens().ident("let"@).ident(self.illegal_ref_ident()).punct('=').ident("unsafe"@)
            .braces(tokens().help("change_lifetime"@).parens(tokens().punct('&').punct('*').ident(self.name@)))
            .punct(';')
    }

    /// The statement that takes a variable with the name of this field and
    /// turns it into a reference to its contents with the lifetime erased.
    pub fn make_illegal_static_reference(&self) -> (out: TokenStream)
        ensures
            out@ == self.illegal_static_reference_tokens(),
    {
        let ref_name = self.illegal_ref_name();
        let mut out = TokenStream::new();
        out.push_ident("let");
        out.push_ident(ref_name.as_str());
        out.push_punct('=');
        out.push_ident("unsafe");
        let mut body = TokenStream::new();
        body.push_help("change_lifetime");
        let mut args = TokenStream::new();
        args.push_punct('&');
        args.push_punct('*');
        args.push_ident(self.name.as_str());
        body.push_parens(args);
        out.push_braces(body);
        out.push_punct(';');
        out
    }

    /// `let name_illegal_static_reference = unsafe { change_lifetime_mut(&mut *name) };`
    ///
    /// ```text
    /// let #ref_name = unsafe {
    ///     ::ouroboros::macro_help::change_lifetime_mut(&mut *#field_name)
    /// };
    /// ```
    pub open spec fn illegal_static_mut_reference_tokens(self) -> Seq<TokenTree> {
        tokens().ident("let"@).ident(self.illegal_ref_ident()).punct('=').ident("unsafe"@)
            .braces(tokens().help("change_lifetime_mut"@)
                .parens(tokens().punct('&').ident("mut"@).punct('*').ident(self.name@))).punct(';')
    }

    /// Like `make_illegal_static_reference`, for a mutable reference.
    pub fn make_illegal_static_mut_reference(&self) -> (out: TokenStream)
        ensures
            out@ == self.illegal_static_mut_reference_tokens(),
    {
        let ref_name = self.illegal_ref_name();
        let mut out = TokenStream::new();
        out.push_ident("let");
        out.push_ident(ref_name.as_str());
        out.push_punct('=');
        out.push_ident("unsafe");
        let mut body = TokenStream::new();
        body.push_help("change_lifetime_mut");
        let mut args = TokenStream::new();
        args.push_punct('&');
        args.push_ident("mut");
        args.push_punct('*');
        args.push_ident(self.name.as_str());
        body.push_parens(args);
        out.push_braces(body);
        out.push_punct(';');
        out
    }

    /// The error that asks the user to state whether the field's type is
    /// covariant.
    pub fn covariance_error(&self) -> (e: Error)
        ensures
            e == Error::at_call_site(ErrorKind::UnknownCovariance),
    {
        Error::at_call_site(ErrorKind::UnknownCovariance)
    }

    /// Whether every borrow of this field names a field of `info`.
    pub open spec fn borrows_within(self, info: StructInfo) -> bool {
        forall|k: int|
            0 <= k < self.borrows.len() ==> (#[trigger] self.borrows[k]).index < info.fields.len()
    }

    /// The types of the references that the builder of this field receives,
    /// one for each borrow, in order.
    pub open spec fn builder_params(self, info: StructInfo) -> Seq<Seq<TokenTree>> {
        Seq::new(
            self.borrows.len() as nat,
            |k: int| builder_param(info.fields[self.borrows[k].index as int], self.borrows[k].mutable),
        )
    }

    /// `for<'this> ::core::ops::FnOnce(&'this A, &'this mut B) -> R`
    ///
    /// ```text
    /// for<'this> ::core::ops::FnOnce(#params) -> #return_type
    /// ```
    pub open spec fn builder_bound(self, info: StructInfo, return_type: Seq<TokenTree>) -> Seq<
        TokenTree,
    > {
        tokens().ident("for"@).punct('<').lifetime("this"@).punct('>').core_path("ops"@, "FnOnce"@)
            .parens(tokens().splice(separated(self.builder_params(info), ','))).arrow()
            .splice(return_type)
    }

    /// The type of the constructor argument for this field: the field's own
    /// type where it borrows nothing, and else the bound on its builder, which
    /// returns `return_type`.
    pub fn make_constructor_arg_type_impl(
        &self,
        info: &StructInfo,
        return_type: TokenStream,
    ) -> (r: Result<ArgType, Error>)
        requires
            self.borrows_within(*info),
        ensures
            match r {
                Ok(ArgType::Plain(plain)) => self.borrows.len() == 0 && plain@ == replace_this(
                    self.typ.tokens@,
                    info.first_lifetime@,
                ),
                Ok(ArgType::TraitBound(bound)) => self.borrows.len() > 0 && bound@
                    == self.builder_bound(*info, return_type@),
                Err(_) => false,
            },
    {
        let fake_lifetime = info.fake_lifetime();
        if self.borrows.len() == 0 {
            // Even a field marked as self-referencing needs no builder as long
            // as it borrows nothing.
            let plain = replace_this_with_lifetime(&self.typ.tokens, fake_lifetime.as_str());
            Ok(ArgType::Plain(plain))
        } else {
            let mut field_builder_params: Vec<TokenStream> = Vec::new();
            let mut k: usize = 0;
            while k < self.borrows.len()
                invariant
                    k <= self.borrows.len(),
                    self.borrows_within(*info),
                    field_builder_params.len() == k,
                    forall|j: int|
                        0 <= j < k ==> (#[trigger] field_builder_params[j])@ == builder_param(
                            info.fields[self.borrows[j].index as int],
                            self.borrows[j].mutable,
                        ),
                decreases self.borrows.len() - k,
            {
                let borrow = self.borrows[k];
                let field = &info.fields[borrow.index];
                if borrow.mutable {
                    let mut param = TokenStream::new();
                    param.push_punct('&');
                    param.push_lifetime("this");
                    param.push_ident("mut");
                    param.append_copy(&field.typ.tokens);
                    field_builder_params.push(param);
                } else {
                    let mut param = TokenStream::new();
                    param.push_punct('&');
                    param.push_lifetime("this");
                    param.append_copy(&field.typ.tokens);
                    field_builder_params.push(param);
                }
                k += 1;
            }
            assert(field_builder_params.deep_view() =~= self.builder_params(*info));
            let params = TokenStream::separated(&field_builder_params, ',');
            let mut out = TokenStream::new();
            out.push_ident("for");
            out.push_punct('<');
            out.push_lifetime("this");
            out.push_punct('>');
            out.push_core("ops", "FnOnce");
            let mut args = TokenStream::new();
            args.append(params);
            out.push_parens(args);
            out.push_arrow();
            out.append(return_type);
            Ok(ArgType::TraitBound(out))
        }
    }

    /// What the builder of this field returns in a constructor of the given
    /// flavour: the field's type, or a boxed future of it.
    pub open spec fn builder_return_type(self, builder_type: BuilderType) -> Seq<TokenTree> {
        match builder_type {
            BuilderType::AsyncSend => {
                tokens().core_path("pin"@, "Pin"@).punct('<').help("alloc"@).segment("boxed"@)
                    .segment("Box"@).punct('<').ident("dyn"@).core_path("future"@, "Future"@).punct('<')
                    .ident("Output"@).punct('=').splice(self.typ.tokens@).punct('>').punct('+')
                    .core_path("marker"@, "Send"@).punct('+').lifetime("this"@).joint('>').punct('>')
            },
            BuilderType::Async => {
                tokens().core_path("pin"@, "Pin"@).punct('<').help("alloc"@).segment("boxed"@)
                    .segment("Box"@).punct('<').ident("dyn"@).core_path("future"@, "Future"@).punct('<')
                    .ident("Output"@).punct('=').splice(self.typ.tokens@).punct('>').punct('+')
                    .lifetime("this"@).joint('>').punct('>')
            },
            BuilderType::Sync => {
                tokens().splice(self.typ.tokens@)
            },
        }
    }

    /// The type of the constructor argument for this field: a plain type where
    /// it borrows nothing, and else a bound on its builder.
    pub fn make_constructor_arg_type(&self, info: &StructInfo, builder_type: BuilderType) -> (r:
        Result<ArgType, Error>)
        requires
            self.borrows_within(*info),
        ensures
            match r {
                Ok(ArgType::Plain(plain)) => self.borrows.len() == 0 && plain@ == replace_this(
                    self.typ.tokens@,
                    info.first_lifetime@,
                ),
                Ok(ArgType::TraitBound(bound)) => self.borrows.len() > 0 && bound@
                    == self.builder_bound(*info, self.builder_return_type(builder_type)),
                Err(_) => false,
            },
    {
        let return_type = match builder_type {
            BuilderType::AsyncSend => {
                let mut out = TokenStream::new();
                out.push_core("pin", "Pin");
                out.push_punct('<');
                out.push_help("alloc");
                out.push_segment("boxed");
                out.push_segment("Box");
                out.push_punct('<');
                out.push_ident("dyn");
                out.push_core("future", "Future");
                out.push_punct('<');
                out.push_ident("Output");
                out.push_punct('=');
                out.append_copy(&self.typ.tokens);
                out.push_punct('>');
                out.push_punct('+');
                out.push_core("marker", "Send");
                out.push_punct('+');
                out.push_lifetime("this");
                out.push_joint('>');
                out.push_punct('>');
                out
            },
            BuilderType::Async => {
                let mut out = TokenStream::new();
                out.push_core("pin", "Pin");
                out.push_punct('<');
                out.push_help("alloc");
                out.push_segment("boxed");
                out.push_segment("Box");
                out.push_punct('<');
                out.push_ident("dyn");
                out.push_core("future", "Future");
                out.push_punct('<');
                out.push_ident("Output");
                out.push_punct('=');
                out.append_copy(&self.typ.tokens);
                out.push_punct('>');
                out.push_punct('+');
                out.push_lifetime("this");
                out.push_joint('>');
                out.push_punct('>');
                out
            },
            BuilderType::Sync => {
                let mut out = TokenStream::new();
                out.append_copy(&self.typ.tokens);
                out
            },
        };
        self.make_constructor_arg_type_impl(info, return_type)
    }

    /// What the builder of this field returns in a fallible constructor of the
    /// given flavour: a result of the field's type, or a boxed future of one.
    pub open spec fn try_builder_return_type(self, builder_type: BuilderType) -> Seq<TokenTree> {
        match builder_type {
            BuilderType::AsyncSend => {
                tokens().core_path("pin"@, "Pin"@).punct('<').help("alloc"@).segment("boxed"@)
                    .segment("Box"@).punct('<').ident("dyn"@).core_path("future"@, "Future"@).punct('<')
                    .ident("Output"@).punct('=').core_path("result"@, "Result"@).punct('<')
                    .splice(self.typ.tokens@).punct(',').ident("Error_"@).joint('>').punct('>').punct('+')
                    .core_path("marker"@, "Send"@).punct('+').lifetime("this"@).joint('>').punct('>')
            },
            BuilderType::Async => {
                tokens().core_path("pin"@, "Pin"@).punct('<').help("alloc"@).segment("boxed"@)
                    .segment("Box"@).punct('<').ident("dyn"@).core_path("future"@, "Future"@).punct('<')
                    .ident("Output"@).punct('=').core_path("result"@, "Result"@).punct('<')
                    .splice(self.typ.tokens@).punct(',').ident("Error_"@).joint('>').punct('>').punct('+')
                    .lifetime("this"@).joint('>').punct('>')
            },
            BuilderType::Sync => {
                tokens().core_path("result"@, "Result"@).punct('<').splice(self.typ.tokens@).punct(',')
                    .ident("Error_"@).punct('>')
            },
        }
    }

    /// Like `make_constructor_arg_type`, for the fallible constructors.
    pub fn make_try_constructor_arg_type(
        &self,
        info: &StructInfo,
        builder_type: BuilderType,
    ) -> (r: Result<ArgType, Error>)
        requires
            self.borrows_within(*info),
        ensures
            match r {
                Ok(ArgType::Plain(plain)) => self.borrows.len() == 0 && plain@ == replace_this(
                    self.typ.tokens@,
                    info.first_lifetime@,
                ),
                Ok(ArgType::TraitBound(bound)) => self.borrows.len() > 0 && bound@
                    == self.builder_bound(*info, self.try_builder_return_type(builder_type)),
                Err(_) => false,
            },
    {
        let return_type = match builder_type {
            BuilderType::AsyncSend => {
                let mut out = TokenStream::new();
                out.push_core("pin", "Pin");
                out.push_punct('<');
                out.push_help("alloc");
                out.push_segment("boxed");
                out.push_segment("Box");
                out.push_punct('<');
                out.push_ident("dyn");
                out.push_core("future", "Future");
                out.push_punct('<');
                out.push_ident("Output");
                out.push_punct('=');
                out.push_core("result", "Result");
                out.push_punct('<');
                out.append_copy(&self.typ.tokens);
                out.push_punct(',');
                out.push_ident("Error_");
                out.push_joint('>');
                out.push_punct('>');
                out.push_punct('+');
                out.push_core("marker", "Send");
                out.push_punct('+');
                out.push_lifetime("this");
                out.push_joint('>');
                out.push_punct('>');
                out
            },
            BuilderType::Async => {
                let mut out = TokenStream::new();
                out.push_core("pin", "Pin");
                out.push_punct('<');
                out.push_help("alloc");
                out.push_segment("boxed");
                out.push_segment("Box");
                out.push_punct('<');
                out.push_ident("dyn");
                out.push_core("future", "Future");
                out.push_punct('<');
                out.push_ident("Output");
                out.push_punct('=');
                out.push_core("result", "Result");
                out.push_punct('<');
                out.append_copy(&self.typ.tokens);
                out.push_punct(',');
                out.push_ident("Error_");
                out.push_joint('>');
                out.push_punct('>');
                out.push_punct('+');
                out.push_lifetime("this");
                out.push_joint('>');
                out.push_punct('>');
                out
            },
            BuilderType::Sync => {
                let mut out = TokenStream::new();
                out.push_core("result", "Result");
                out.push_punct('<');
                out.append_copy(&self.typ.tokens);
                out.push_punct(',');
                out.push_ident("Error_");
                out.push_punct('>');
                out
            },
        };
        self.make_constructor_arg_type_impl(info, return_type)
    }
}

} // verus!
