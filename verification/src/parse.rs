//! Turns a struct declaration into its analysed form, or rejects it.

use vstd::prelude::*;
use vstd::string::*;
use crate::covariance_detection::{covariance, type_is_covariant_over_this_lifetime};
use crate::diagnostics::{Error, ErrorKind};
use crate::info_structures::{
    BorrowRequest, Derive, FieldType, FieldView, Options, StructFieldInfo, StructInfo,
    StructInfoView, accepted, all_edges, borrow_role, field_names, field_roles,
    lemma_accepted_empty, lemma_accepted_push, role_of,
};
use crate::syntax::{Attribute, FieldDecl, FieldsDecl, GenericParamKind, Generics, StructDecl};
use crate::tokens::{Delimiter, Token, TokenStream, TokenTree, lemma_group_view};
use crate::utils::{submodule_contents_visiblity, submodule_visibility};

verus! {

/// The position of the first name from `from` on that equals `name`.
pub open spec fn position_of(names: Seq<Seq<char>>, name: Seq<char>, from: int) -> Option<int>
    decreases names.len() - from,
{
    if from < 0 || from >= names.len() {
        None
    } else if names[from] == name {
        Some(from)
    } else {
        position_of(names, name, from + 1)
    }
}

/// Where the reading of a `borrows` attribute stands.
pub struct BorrowsState {
    /// The roles of the fields declared so far.
    pub roles: Seq<FieldType>,
    /// The borrows read so far.
    pub borrows: Seq<BorrowRequest>,
    /// Whether `mut` was read and waits for its field name.
    pub borrow_mut: bool,
    /// Whether a field name was read and a comma must follow.
    pub waiting_for_comma: bool,
}

/// Reads one token of a `borrows` attribute. A field name turns into a borrow
/// of the field declared under that name, and changes that field's role.
pub open spec fn borrows_step(names: Seq<Seq<char>>, st: BorrowsState, token: TokenTree) -> Result<
    BorrowsState,
    ErrorKind,
> {
    match token {
        TokenTree::Ident(word) => if st.waiting_for_comma {
            Err(ErrorKind::ExpectedComma)
        } else if word == "mut"@ {
            if st.borrow_mut {
                Err(ErrorKind::DoubleMut)
            } else {
                Ok(BorrowsState { borrow_mut: true, ..st })
            }
        } else {
            match position_of(names, word, 0) {
                None => Err(ErrorKind::UnknownField),
                Some(index) => match borrow_role(st.roles[index], st.borrow_mut) {
                    Err(conflict) => Err(conflict),
                    Ok(role) => Ok(
                        BorrowsState {
                            roles: st.roles.update(index, role),
                            borrows: st.borrows.push(
                                BorrowRequest { index: index as usize, mutable: st.borrow_mut },
                            ),
                            borrow_mut: false,
                            waiting_for_comma: true,
                        },
                    ),
                },
            }
        },
        TokenTree::Punct(c, _) => if c == ',' {
            if st.waiting_for_comma {
                Ok(BorrowsState { waiting_for_comma: false, ..st })
            } else {
                Err(ErrorKind::ExtraComma)
            }
        } else {
            Err(ErrorKind::UnexpectedPunctuation)
        },
        _ => Err(ErrorKind::UnexpectedToken),
    }
}

/// Reads the tokens of a `borrows` attribute from `from` on. The first token
/// that cannot be read gives the error, placed at that token.
pub open spec fn borrows_run(
    names: Seq<Seq<char>>,
    st: BorrowsState,
    tokens: Seq<TokenTree>,
    from: int,
) -> Result<BorrowsState, Error>
    decreases tokens.len() - from,
{
    if from < 0 || from >= tokens.len() {
        Ok(st)
    } else {
        match borrows_step(names, st, tokens[from]) {
            Err(kind) => Err(Error::at_token(kind, from as usize)),
            Ok(next) => borrows_run(names, next, tokens, from + 1),
        }
    }
}

/// The state in which the reading of the tokens from `from` on ends: the one
/// after the last token where every token can be read, and the one before
/// the first token that cannot be read otherwise. A token that cannot be read
/// changes nothing.
pub open spec fn borrows_reached(
    names: Seq<Seq<char>>,
    st: BorrowsState,
    tokens: Seq<TokenTree>,
    from: int,
) -> BorrowsState
    decreases tokens.len() - from,
{
    if from < 0 || from >= tokens.len() {
        st
    } else {
        match borrows_step(names, st, tokens[from]) {
            Err(_) => st,
            Ok(next) => borrows_reached(names, next, tokens, from + 1),
        }
    }
}

/// The state that the reading of a whole `borrows` attribute leaves behind,
/// whether it succeeds or fails: the roles and the borrows as they stand
/// after the last token that was read. An attribute without a group leaves
/// everything as it was.
pub open spec fn borrows_attribute_reached(
    names: Seq<Seq<char>>,
    roles: Seq<FieldType>,
    borrows: Seq<BorrowRequest>,
    tokens: Seq<TokenTree>,
) -> BorrowsState {
    let start = BorrowsState { roles, borrows, borrow_mut: false, waiting_for_comma: false };
    if tokens.len() > 0 && tokens[0] is Group {
        borrows_reached(names, start, tokens[0]->Group_1, 0)
    } else {
        start
    }
}

/// Where the reading succeeds, the state it ends in is the state it gives.
pub proof fn lemma_borrows_reached_on_success(
    names: Seq<Seq<char>>,
    st: BorrowsState,
    tokens: Seq<TokenTree>,
    from: int,
)
    requires
        borrows_run(names, st, tokens, from) is Ok,
    ensures
        borrows_reached(names, st, tokens, from) == borrows_run(names, st, tokens, from)->Ok_0,
    decreases tokens.len() - from,
{
    if 0 <= from < tokens.len() {
        match borrows_step(names, st, tokens[from]) {
            Err(_) => {},
            Ok(next) => {
                lemma_borrows_reached_on_success(names, next, tokens, from + 1);
            },
        }
    }
}

/// A token that is no field name changes neither a role nor the borrows: only
/// an accepted borrow does.
pub proof fn lemma_step_without_borrow(names: Seq<Seq<char>>, st: BorrowsState, token: TokenTree)
    requires
        borrows_step(names, st, token) is Ok,
        !(token is Ident) || token->Ident_0 == "mut"@,
    ensures
        borrows_step(names, st, token)->Ok_0.roles == st.roles,
        borrows_step(names, st, token)->Ok_0.borrows == st.borrows,
{
}

/// A borrow that is rejected changes nothing: where the first token of the
/// group, or the one that follows a leading `mut`, names a field that cannot
/// be borrowed in this way, or no field declared so far, the reading fails
/// and leaves every role and the list of borrows as they were.
pub proof fn lemma_rejected_borrow_changes_nothing(
    names: Seq<Seq<char>>,
    roles: Seq<FieldType>,
    borrows: Seq<BorrowRequest>,
    tokens: Seq<TokenTree>,
    name: Seq<char>,
    mutable: bool,
)
    requires
        name != "mut"@,
        tokens == (if mutable {
            seq![TokenTree::Ident("mut"@), TokenTree::Ident(name)]
        } else {
            seq![TokenTree::Ident(name)]
        }),
        match position_of(names, name, 0) {
            None => true,
            Some(index) => roles[index] == FieldType::BorrowedMut || (mutable && roles[index]
                == FieldType::Borrowed),
        },
    ensures
        ({
            let start = BorrowsState { roles, borrows, borrow_mut: false, waiting_for_comma: false };
            &&& borrows_run(names, start, tokens, 0) is Err
            &&& borrows_reached(names, start, tokens, 0).roles == roles
            &&& borrows_reached(names, start, tokens, 0).borrows == borrows
        }),
{
    let start = BorrowsState { roles, borrows, borrow_mut: false, waiting_for_comma: false };
    if mutable {
        let armed = BorrowsState { borrow_mut: true, ..start };
        assert(tokens[0] == TokenTree::Ident("mut"@));
        assert(tokens[1] == TokenTree::Ident(name));
        assert(borrows_step(names, start, tokens[0]) == Ok::<BorrowsState, ErrorKind>(armed));
        assert(borrows_step(names, armed, tokens[1]) is Err);
        assert(borrows_run(names, armed, tokens, 1) is Err);
        assert(borrows_reached(names, armed, tokens, 1) == armed);
    } else {
        assert(tokens[0] == TokenTree::Ident(name));
        assert(borrows_step(names, start, tokens[0]) is Err);
    }
}

/// Reads a whole `borrows` attribute, whose tokens must start with a group.
pub open spec fn borrows_attribute(
    names: Seq<Seq<char>>,
    roles: Seq<FieldType>,
    borrows: Seq<BorrowRequest>,
    tokens: Seq<TokenTree>,
) -> Result<BorrowsState, Error> {
    if tokens.len() > 0 && tokens[0] is Group {
        borrows_run(
            names,
            BorrowsState { roles, borrows, borrow_mut: false, waiting_for_comma: false },
            tokens[0]->Group_1,
            0,
        )
    } else {
        Err(Error::at_call_site(ErrorKind::InvalidBorrowsSyntax))
    }
}

/// Whether `after` is `before` with nothing but roles changed.
pub open spec fn only_roles_changed(before: Seq<StructFieldInfo>, after: Seq<StructFieldInfo>) -> bool {
    &&& after.len() == before.len()
    &&& forall|j: int|
        0 <= j < before.len() ==> (#[trigger] after[j]) == (StructFieldInfo {
            field_type: after[j].field_type,
            ..before[j]
        })
}

fn position(field_info: &Vec<StructFieldInfo>, name: &String) -> (r: Option<usize>)
    ensures
        match r {
            Some(index) => position_of(field_names(field_info@), name@, 0) == Some(index as int)
                && index < field_info.len(),
            None => position_of(field_names(field_info@), name@, 0) is None,
        },
{
    let ghost names = field_names(field_info@);
    let mut i: usize = 0;
    while i < field_info.len()
        invariant
            i <= field_info.len(),
            names == field_names(field_info@),
            position_of(names, name@, 0) == position_of(names, name@, i as int),
        decreases field_info.len() - i,
    {
        if field_info[i].name == *name {
            return Some(i);
        }
        i += 1;
    }
    None
}

/// Reads one `borrows` attribute of the field that is being parsed: adds its
/// borrows to `borrows` and gives the fields it names their new roles. Where
/// a token cannot be read, the reading stops before it: the borrows that
/// were accepted up to there stay, and the token itself changes nothing.
pub fn handle_borrows_attr(
    field_info: &mut Vec<StructFieldInfo>,
    attr: &Attribute,
    borrows: &mut Vec<BorrowRequest>,
) -> (r: Result<(), Error>)
    ensures
        only_roles_changed(old(field_info)@, final(field_info)@),
        match borrows_attribute(
            field_names(old(field_info)@),
            field_roles(old(field_info)@),
            old(borrows)@,
            attr.tokens@,
        ) {
            Ok(st) => r is Ok && field_roles(final(field_info)@) == st.roles && final(borrows)@
                == st.borrows,
            Err(e) => r == Err::<(), Error>(e),
        },
        field_roles(final(field_info)@) == borrows_attribute_reached(
            field_names(old(field_info)@),
            field_roles(old(field_info)@),
            old(borrows)@,
            attr.tokens@,
        ).roles,
        final(borrows)@ == borrows_attribute_reached(
            field_names(old(field_info)@),
            field_roles(old(field_info)@),
            old(borrows)@,
            attr.tokens@,
        ).borrows,
{
    let mut borrow_mut = false;
    let mut waiting_for_comma = false;
    if attr.tokens.trees.len() == 0 {
        return Err(Error::at_call_site(ErrorKind::InvalidBorrowsSyntax));
    }
    let group = match &attr.tokens.trees[0] {
        Token::Group(d, inner) => {
            proof {
                lemma_group_view(*d, *inner);
            }
            inner
        },
        _ => {
            return Err(Error::at_call_site(ErrorKind::InvalidBorrowsSyntax));
        },
    };
    let ghost names = field_names(field_info@);
    let ghost start = BorrowsState {
        roles: field_roles(field_info@),
        borrows: borrows@,
        borrow_mut: false,
        waiting_for_comma: false,
    };
    let mut i: usize = 0;
    while i < group.trees.len()
        invariant
            i <= group.trees.len(),
            only_roles_changed(old(field_info)@, field_info@),
            names == field_names(old(field_info)@),
            borrows_attribute(
                field_names(old(field_info)@),
                field_roles(old(field_info)@),
                old(borrows)@,
                attr.tokens@,
            ) == borrows_run(names, start, group@, 0),
            borrows_run(names, start, group@, 0) == borrows_run(
                names,
                BorrowsState {
                    roles: field_roles(field_info@),
                    borrows: borrows@,
                    borrow_mut,
                    waiting_for_comma,
                },
                group@,
                i as int,
            ),
            borrows_attribute_reached(
                field_names(old(field_info)@),
                field_roles(old(field_info)@),
                old(borrows)@,
                attr.tokens@,
            ) == borrows_reached(names, start, group@, 0),
            borrows_reached(names, start, group@, 0) == borrows_reached(
                names,
                BorrowsState {
                    roles: field_roles(field_info@),
                    borrows: borrows@,
                    borrow_mut,
                    waiting_for_comma,
                },
                group@,
                i as int,
            ),
        decreases group.trees.len() - i,
    {
        let ghost here = BorrowsState {
            roles: field_roles(field_info@),
            borrows: borrows@,
            borrow_mut,
            waiting_for_comma,
        };
        assert(field_names(field_info@) =~= names);
        assert(borrows_run(names, here, group@, i as int) == match borrows_step(
            names,
            here,
            group@[i as int],
        ) {
            Err(kind) => Err(Error::at_token(kind, i)),
            Ok(next) => borrows_run(names, next, group@, i + 1),
        });
        assert(borrows_reached(names, here, group@, i as int) == match borrows_step(
            names,
            here,
            group@[i as int],
        ) {
            Err(_) => here,
            Ok(next) => borrows_reached(names, next, group@, i + 1),
        });
        match &group.trees[i] {
            Token::Ident(word) => {
                if waiting_for_comma {
                    return Err(Error::at_token(ErrorKind::ExpectedComma, i));
                }
                if *word == String::from_str("mut") {
                    if borrow_mut {
                        return Err(Error::at_token(ErrorKind::DoubleMut, i));
                    }
                    borrow_mut = true;
                } else {
                    let index = match position(field_info, word) {
                        Some(v) => v,
                        None => {
                            return Err(Error::at_token(ErrorKind::UnknownField, i));
                        },
                    };
                    let ghost before = field_info@;
                    if borrow_mut {
                        match field_info[index].field_type {
                            FieldType::Borrowed => {
                                return Err(Error::at_token(ErrorKind::MutableAfterImmutable, i));
                            },
                            FieldType::BorrowedMut => {
                                return Err(Error::at_token(ErrorKind::MutableTwice, i));
                            },
                            FieldType::Tail => {},
                        }
                        field_info[index].field_type = FieldType::BorrowedMut;
                    } else {
                        match field_info[index].field_type {
                            FieldType::BorrowedMut => {
                                return Err(Error::at_token(ErrorKind::ImmutableAfterMutable, i));
                            },
                            _ => {},
                        }
                        field_info[index].field_type = FieldType::Borrowed;
                    }
                    borrows.push(BorrowRequest { index, mutable: borrow_mut });
                    waiting_for_comma = true;
                    borrow_mut = false;
                    assert(field_roles(field_info@) =~= field_roles(before).update(
                        index as int,
                        field_info[index as int].field_type,
                    ));
                }
            },
            Token::Punct(c, _) => {
                if *c == ',' {
                    if waiting_for_comma {
                        waiting_for_comma = false;
                    } else {
                        return Err(Error::at_token(ErrorKind::ExtraComma, i));
                    }
                } else {
                    return Err(Error::at_token(ErrorKind::UnexpectedPunctuation, i));
                }
            },
            _ => {
                return Err(Error::at_token(ErrorKind::UnexpectedToken, i));
            },
        }
        i += 1;
    }
    Ok(())
}

/// Whether the roles are those that the borrows in `edges` give, none of the
/// borrows conflicts with the ones before it, and each names a field.
pub open spec fn classified(roles: Seq<FieldType>, edges: Seq<BorrowRequest>) -> bool {
    &&& accepted(edges)
    &&& forall|k: int| 0 <= k < edges.len() ==> (#[trigger] edges[k]).index < roles.len()
    &&& forall|j: int| 0 <= j < roles.len() ==> (#[trigger] roles[j]) == role_of(edges, j)
}

/// A position that `position_of` finds lies inside the names, at or after
/// the start, and holds the name.
pub proof fn lemma_position_of(names: Seq<Seq<char>>, name: Seq<char>, from: int)
    requires
        0 <= from,
    ensures
        match position_of(names, name, from) {
            Some(index) => from <= index < names.len() && names[index] == name,
            None => forall|i: int| from <= i < names.len() ==> names[i] != name,
        },
    decreases names.len() - from,
{
    if from < names.len() && names[from] != name {
        lemma_position_of(names, name, from + 1);
    }
}

/// One more borrow that does not conflict keeps the classification.
pub proof fn lemma_classified_push(
    roles: Seq<FieldType>,
    edges: Seq<BorrowRequest>,
    index: int,
    mutable: bool,
)
    requires
        classified(roles, edges),
        0 <= index < roles.len(),
        index <= usize::MAX,
        borrow_role(roles[index], mutable) is Ok,
    ensures
        classified(
            roles.update(index, borrow_role(roles[index], mutable)->Ok_0),
            edges.push(BorrowRequest { index: index as usize, mutable }),
        ),
{
    let edge = BorrowRequest { index: index as usize, mutable };
    let longer = edges.push(edge);
    let updated = roles.update(index, borrow_role(roles[index], mutable)->Ok_0);
    assert(longer.drop_last() =~= edges);
    lemma_accepted_push(edges, edge);
    assert forall|j: int| 0 <= j < updated.len() implies (#[trigger] updated[j]) == role_of(
        longer,
        j,
    ) by {
        assert(roles[j] == role_of(edges, j));
    }
}

/// Reading a `borrows` attribute keeps the classification: the roles it
/// leaves are those that all the borrows so far give.
pub proof fn lemma_borrows_run_classified(
    names: Seq<Seq<char>>,
    st: BorrowsState,
    tokens: Seq<TokenTree>,
    from: int,
    prior: Seq<BorrowRequest>,
)
    requires
        0 <= from,
        names.len() == st.roles.len(),
        names.len() <= usize::MAX,
        classified(st.roles, prior + st.borrows),
    ensures
        match borrows_run(names, st, tokens, from) {
            Ok(end) => end.roles.len() == st.roles.len() && classified(
                end.roles,
                prior + end.borrows,
            ),
            Err(_) => true,
        },
    decreases tokens.len() - from,
{
    if from < tokens.len() {
        match borrows_step(names, st, tokens[from]) {
            Err(_) => {},
            Ok(next) => {
                match tokens[from] {
                    TokenTree::Ident(word) => {
                        if word != "mut"@ {
                            lemma_position_of(names, word, 0);
                            let index = position_of(names, word, 0)->Some_0;
                            lemma_classified_push(
                                st.roles,
                                prior + st.borrows,
                                index,
                                st.borrow_mut,
                            );
                            assert(prior + next.borrows =~= (prior + st.borrows).push(
                                BorrowRequest { index: index as usize, mutable: st.borrow_mut },
                            ));
                        }
                    },
                    _ => {},
                }
                lemma_borrows_run_classified(names, next, tokens, from + 1, prior);
            },
        }
    }
}

/// The borrows of the fields do not depend on the fields' roles.
pub proof fn lemma_all_edges_ignore_roles(before: Seq<StructFieldInfo>, after: Seq<StructFieldInfo>)
    requires
        only_roles_changed(before, after),
    ensures
        all_edges(after) == all_edges(before),
    decreases before.len(),
{
    if before.len() > 0 {
        assert(after.last() == after[after.len() - 1]);
        assert(only_roles_changed(before.drop_last(), after.drop_last())) by {
            assert forall|j: int| 0 <= j < before.drop_last().len() implies (
            #[trigger] after.drop_last()[j]) == (StructFieldInfo {
                field_type: after.drop_last()[j].field_type,
                ..before.drop_last()[j]
            }) by {
                assert(after.drop_last()[j] == after[j]);
            }
        }
        lemma_all_edges_ignore_roles(before.drop_last(), after.drop_last());
    }
}

/// A field that no borrow names is a tail field.
pub proof fn lemma_unborrowed_is_tail(edges: Seq<BorrowRequest>, j: int)
    requires
        forall|k: int| 0 <= k < edges.len() ==> (#[trigger] edges[k]).index != j,
    ensures
        role_of(edges, j) == FieldType::Tail,
    decreases edges.len(),
{
    if edges.len() > 0 {
        assert forall|k: int| 0 <= k < edges.drop_last().len() implies (
        #[trigger] edges.drop_last()[k]).index != j by {
            assert(edges.drop_last()[k] == edges[k]);
        }
        lemma_unborrowed_is_tail(edges.drop_last(), j);
    }
}

/// What has been read of the attributes of one field.
pub struct FieldAttrsState {
    /// The roles of the fields declared before this one.
    pub roles: Seq<FieldType>,
    /// The borrows of this field.
    pub borrows: Seq<BorrowRequest>,
    /// Whether a `borrows` attribute was read.
    pub self_referencing: bool,
    /// Whether the type of the field is covariant, where known or stated.
    pub covariant: Option<bool>,
}

/// Reads one attribute of a field. Only `borrows`, `covariant` and
/// `not_covariant`, written as a single name, mean anything here.
pub open spec fn field_attr_step(names: Seq<Seq<char>>, st: FieldAttrsState, attr: Attribute) -> Result<
    FieldAttrsState,
    Error,
> {
    if attr.leading_colon || attr.segments.len() != 1 {
        Ok(st)
    } else if attr.segments[0]@ == "borrows"@ {
        if st.self_referencing {
            Err(Error::at_call_site(ErrorKind::DuplicateBorrows))
        } else {
            match borrows_attribute(names, st.roles, st.borrows, attr.tokens@) {
                Err(e) => Err(e),
                Ok(read) => Ok(
                    FieldAttrsState {
                        roles: read.roles,
                        borrows: read.borrows,
                        self_referencing: true,
                        covariant: st.covariant,
                    },
                ),
            }
        }
    } else if attr.segments[0]@ == "covariant"@ {
        if st.covariant is Some {
            Err(Error::at_call_site(ErrorKind::DuplicateCovariance))
        } else {
            Ok(FieldAttrsState { covariant: Some(true), ..st })
        }
    } else if attr.segments[0]@ == "not_covariant"@ {
        if st.covariant is Some {
            Err(Error::at_call_site(ErrorKind::DuplicateCovariance))
        } else {
            Ok(FieldAttrsState { covariant: Some(false), ..st })
        }
    } else {
        Ok(st)
    }
}

/// Reads the first `n` attributes of field number `field`, starting from
/// `start`. The first attribute that is rejected gives the error, placed in
/// that attribute.
pub open spec fn field_attrs_run(
    names: Seq<Seq<char>>,
    start: FieldAttrsState,
    attrs: Seq<Attribute>,
    n: int,
    field: usize,
) -> Result<FieldAttrsState, Error>
    decreases n,
{
    if n <= 0 {
        Ok(start)
    } else {
        match field_attrs_run(names, start, attrs, n - 1, field) {
            Err(e) => Err(e),
            Ok(st) => match field_attr_step(names, st, attrs[n - 1]) {
                Err(e) => Err(e.in_attribute(Some(field), (n - 1) as usize)),
                Ok(next) => Ok(next),
            },
        }
    }
}

/// Reading the attributes of a field keeps the classification.
pub proof fn lemma_field_attrs_run_classified(
    names: Seq<Seq<char>>,
    start: FieldAttrsState,
    attrs: Seq<Attribute>,
    n: int,
    field: usize,
    prior: Seq<BorrowRequest>,
)
    requires
        names.len() == start.roles.len(),
        names.len() <= usize::MAX,
        classified(start.roles, prior + start.borrows),
        start.borrows.len() > 0 ==> start.self_referencing,
    ensures
        match field_attrs_run(names, start, attrs, n, field) {
            Ok(end) => {
                &&& end.roles.len() == start.roles.len()
                &&& classified(end.roles, prior + end.borrows)
                &&& end.borrows.len() > 0 ==> end.self_referencing
            },
            Err(_) => true,
        },
    decreases n,
{
    if n > 0 {
        lemma_field_attrs_run_classified(names, start, attrs, n - 1, field, prior);
        match field_attrs_run(names, start, attrs, n - 1, field) {
            Err(_) => {},
            Ok(st) => {
                let attr = attrs[n - 1];
                if !attr.leading_colon && attr.segments.len() == 1 && attr.segments[0]@
                    == "borrows"@ && !st.self_referencing && attr.tokens@.len() > 0
                    && attr.tokens@[0] is Group {
                    lemma_borrows_run_classified(
                        names,
                        BorrowsState {
                            roles: st.roles,
                            borrows: st.borrows,
                            borrow_mut: false,
                            waiting_for_comma: false,
                        },
                        attr.tokens@[0]->Group_1,
                        0,
                        prior,
                    );
                }
            },
        }
    }
}

fn parse_field_attrs(
    fields: &mut Vec<StructFieldInfo>,
    attrs: &Vec<Attribute>,
    field: usize,
    covariant: Option<bool>,
) -> (r: Result<(Vec<BorrowRequest>, bool, Option<bool>), Error>)
    ensures
        only_roles_changed(old(fields)@, final(fields)@),
        match field_attrs_run(
            field_names(old(fields)@),
            FieldAttrsState {
                roles: field_roles(old(fields)@),
                borrows: Seq::empty(),
                self_referencing: false,
                covariant,
            },
            attrs@,
            attrs.len() as int,
            field,
        ) {
            Ok(st) => match r {
                Ok(read) => field_roles(final(fields)@) == st.roles && read.0@ == st.borrows
                    && read.1 == st.self_referencing && read.2 == st.covariant,
                Err(_) => false,
            },
            Err(e) => r is Err && r->Err_0 == e,
        },
{
    let ghost names = field_names(fields@);
    let ghost start = FieldAttrsState {
        roles: field_roles(fields@),
        borrows: Seq::empty(),
        self_referencing: false,
        covariant,
    };
    let mut borrows: Vec<BorrowRequest> = Vec::new();
    let mut self_referencing = false;
    let mut known = covariant;
    let mut index: usize = 0;
    while index < attrs.len()
        invariant
            index <= attrs.len(),
            only_roles_changed(old(fields)@, fields@),
            names == field_names(old(fields)@),
            start == (FieldAttrsState {
                roles: field_roles(old(fields)@),
                borrows: Seq::empty(),
                self_referencing: false,
                covariant,
            }),
            field_attrs_run(names, start, attrs@, index as int, field) == Ok::<
                FieldAttrsState,
                Error,
            >(
                FieldAttrsState {
                    roles: field_roles(fields@),
                    borrows: borrows@,
                    self_referencing,
                    covariant: known,
                },
            ),
        ensures
            index == attrs.len(),
        decreases attrs.len() - index,
    {
        let attr = &attrs[index];
        assert(field_names(fields@) =~= names);
        if !attr.leading_colon && attr.segments.len() == 1 {
            if attr.segments[0] == String::from_str("borrows") {
                if self_referencing {
                    proof {
                        lemma_field_attrs_run_error(
                            names,
                            start,
                            attrs@,
                            index + 1,
                            attrs.len() as int,
                            field,
                        );
                    }
                    return Err(
                        Error::at_call_site(ErrorKind::DuplicateBorrows).in_attribute(
                            Some(field),
                            index,
                        ),
                    );
                }
                self_referencing = true;
                match handle_borrows_attr(fields, attr, &mut borrows) {
                    Ok(()) => {},
                    Err(e) => {
                        proof {
                            lemma_field_attrs_run_error(
                                names,
                                start,
                                attrs@,
                                index + 1,
                                attrs.len() as int,
                                field,
                            );
                        }
                        return Err(e.in_attribute(Some(field), index));
                    },
                }
            } else if attr.segments[0] == String::from_str("covariant") {
                if known.is_some() {
                    proof {
                        lemma_field_attrs_run_error(
                            names,
                            start,
                            attrs@,
                            index + 1,
                            attrs.len() as int,
                            field,
                        );
                    }
                    return Err(
                        Error::at_call_site(ErrorKind::DuplicateCovariance).in_attribute(
                            Some(field),
                            index,
                        ),
                    );
                }
                known = Some(true);
            } else if attr.segments[0] == String::from_str("not_covariant") {
                if known.is_some() {
                    proof {
                        lemma_field_attrs_run_error(
                            names,
                            start,
                            attrs@,
                            index + 1,
                            attrs.len() as int,
                            field,
                        );
                    }
                    return Err(
                        Error::at_call_site(ErrorKind::DuplicateCovariance).in_attribute(
                            Some(field),
                            index,
                        ),
                    );
                }
                known = Some(false);
            }
        }
        index += 1;
    }
    Ok((borrows, self_referencing, known))
}

/// The trait that a name in a `derive` attribute asks for.
pub open spec fn derive_named(name: Seq<char>) -> Option<Derive> {
    if name == "Debug"@ {
        Some(Derive::Debug)
    } else if name == "PartialEq"@ {
        Some(Derive::PartialEq)
    } else if name == "Eq"@ {
        Some(Derive::Eq)
    } else {
        None
    }
}

/// Reads one token of a `derive` attribute: a trait, or punctuation that
/// means nothing.
pub open spec fn derive_token(token: TokenTree) -> Result<Option<Derive>, ErrorKind> {
    match token {
        TokenTree::Ident(name) => match derive_named(name) {
            Some(derive) => Ok(Some(derive)),
            None => Err(ErrorKind::UnderivableTrait),
        },
        TokenTree::Punct(_, _) => Ok(None),
        _ => Err(ErrorKind::BadDeriveSyntax),
    }
}

/// The traits that the first `n` tokens of a `derive` attribute ask for. The
/// first token that is rejected gives the error, placed at that token.
pub open spec fn derive_tokens(tokens: Seq<TokenTree>, n: int) -> Result<Seq<Derive>, Error>
    decreases n,
{
    if n <= 0 {
        Ok(Seq::empty())
    } else {
        match derive_tokens(tokens, n - 1) {
            Err(e) => Err(e),
            Ok(derives) => match derive_token(tokens[n - 1]) {
                Err(kind) => Err(Error::at_token(kind, (n - 1) as usize)),
                Ok(Some(derive)) => Ok(derives.push(derive)),
                Ok(None) => Ok(derives),
            },
        }
    }
}

/// The traits that a `derive` attribute asks for. Its tokens must start with
/// a group in parentheses.
pub open spec fn derive_attribute(tokens: Seq<TokenTree>) -> Result<Seq<Derive>, Error> {
    if tokens.len() > 0 && tokens[0] is Group && tokens[0]->Group_0 == Delimiter::Parenthesis {
        derive_tokens(tokens[0]->Group_1, tokens[0]->Group_1.len() as int)
    } else {
        Err(Error::at_call_site(ErrorKind::BadDeriveSyntax))
    }
}

/// Reads one token of a `derive` attribute.
pub fn parse_derive_token(token: &Token) -> (r: Result<Option<Derive>, ErrorKind>)
    ensures
        r == derive_token(token@),
{
    match token {
        Token::Ident(name) => {
            if *name == String::from_str("Debug") {
                Ok(Some(Derive::Debug))
            } else if *name == String::from_str("PartialEq") {
                Ok(Some(Derive::PartialEq))
            } else if *name == String::from_str("Eq") {
                Ok(Some(Derive::Eq))
            } else {
                Err(ErrorKind::UnderivableTrait)
            }
        },
        Token::Punct(_, _) => Ok(None),
        Token::Literal(_) => Err(ErrorKind::BadDeriveSyntax),
        Token::Group(d, inner) => {
            proof {
                lemma_group_view(*d, *inner);
            }
            Err(ErrorKind::BadDeriveSyntax)
        },
    }
}

/// Reads a `derive` attribute.
pub fn parse_derive_attribute(attr: &Attribute) -> (r: Result<Vec<Derive>, Error>)
    ensures
        match derive_attribute(attr.tokens@) {
            Ok(derives) => r is Ok && r->Ok_0@ == derives,
            Err(e) => r is Err && r->Err_0 == e,
        },
{
    if attr.tokens.trees.len() == 0 {
        return Err(Error::at_call_site(ErrorKind::BadDeriveSyntax));
    }
    let body = match &attr.tokens.trees[0] {
        Token::Group(d, inner) => {
            proof {
                lemma_group_view(*d, *inner);
            }
            match d {
                Delimiter::Parenthesis => inner,
                _ => {
                    return Err(Error::at_call_site(ErrorKind::BadDeriveSyntax));
                },
            }
        },
        _ => {
            return Err(Error::at_call_site(ErrorKind::BadDeriveSyntax));
        },
    };
    let mut derives: Vec<Derive> = Vec::new();
    let mut i: usize = 0;
    while i < body.trees.len()
        invariant
            i <= body.trees.len(),
            derive_attribute(attr.tokens@) == derive_tokens(body@, body@.len() as int),
            derive_tokens(body@, i as int) == Ok::<Seq<Derive>, Error>(derives@),
        ensures
            i == body.trees.len(),
        decreases body.trees.len() - i,
    {
        match parse_derive_token(&body.trees[i]) {
            Ok(Some(derive)) => {
                derives.push(derive);
            },
            Ok(None) => {},
            Err(kind) => {
                proof {
                    lemma_derive_tokens_error(body@, i + 1, body@.len() as int);
                }
                return Err(Error::at_token(kind, i));
            },
        }
        i += 1;
    }
    Ok(derives)
}

/// An error in a prefix of a `derive` attribute is the error of the whole.
pub proof fn lemma_derive_tokens_error(tokens: Seq<TokenTree>, n: int, m: int)
    requires
        0 <= n <= m,
        derive_tokens(tokens, n) is Err,
    ensures
        derive_tokens(tokens, m) == derive_tokens(tokens, n),
    decreases m - n,
{
    if n < m {
        lemma_derive_tokens_error(tokens, n, m - 1);
    }
}

/// An error in a prefix of a field's attributes is the error of the whole.
pub proof fn lemma_field_attrs_run_error(
    names: Seq<Seq<char>>,
    start: FieldAttrsState,
    attrs: Seq<Attribute>,
    n: int,
    m: int,
    field: usize,
)
    requires
        0 <= n <= m,
        field_attrs_run(names, start, attrs, n, field) is Err,
    ensures
        field_attrs_run(names, start, attrs, m, field) == field_attrs_run(
            names,
            start,
            attrs,
            n,
            field,
        ),
    decreases m - n,
{
    if n < m {
        lemma_field_attrs_run_error(names, start, attrs, n, m - 1, field);
    }
}

/// The values of the fields, in declaration order.
pub open spec fn field_views(fields: Seq<StructFieldInfo>) -> Seq<FieldView> {
    Seq::new(fields.len(), |i: int| fields[i]@)
}

/// The names of the fields, in declaration order.
pub open spec fn view_names(fields: Seq<FieldView>) -> Seq<Seq<char>> {
    Seq::new(fields.len(), |i: int| fields[i].name)
}

/// The roles of the fields, in declaration order.
pub open spec fn view_roles(fields: Seq<FieldView>) -> Seq<FieldType> {
    Seq::new(fields.len(), |i: int| fields[i].field_type)
}

/// The fields with their roles replaced by `roles`.
pub open spec fn with_roles(fields: Seq<FieldView>, roles: Seq<FieldType>) -> Seq<FieldView> {
    Seq::new(fields.len(), |i: int| FieldView { field_type: roles[i], ..fields[i] })
}

/// The analysed form of the first `n` fields of a declaration. Each field
/// starts as a tail field, with the covariance that its type shows, and is
/// seen from one module further down; its attributes add its borrows, change
/// the roles of the fields it borrows, and may state its covariance.
pub open spec fn parse_fields(decls: Seq<FieldDecl>, n: int) -> Result<Seq<FieldView>, Error>
    decreases n,
{
    if n <= 0 {
        Ok(Seq::empty())
    } else {
        match parse_fields(decls, n - 1) {
            Err(e) => Err(e),
            Ok(fields) => {
                let decl = decls[n - 1];
                match field_attrs_run(
                    view_names(fields),
                    FieldAttrsState {
                        roles: view_roles(fields),
                        borrows: Seq::empty(),
                        self_referencing: false,
                        covariant: covariance(decl.ty),
                    },
                    decl.attrs@,
                    decl.attrs.len() as int,
                    (n - 1) as usize,
                ) {
                    Err(e) => Err(e),
                    Ok(st) => Ok(
                        with_roles(fields, st.roles).push(
                            FieldView {
                                name: decl.ident@,
                                typ: decl.ty,
                                field_type: FieldType::Tail,
                                vis: submodule_visibility(decl.vis@),
                                borrows: st.borrows,
                                self_referencing: st.self_referencing,
                                covariant: st.covariant,
                            },
                        ),
                    ),
                }
            },
        }
    }
}

/// An error in a prefix of the fields is the error of the whole.
pub proof fn lemma_parse_fields_error(decls: Seq<FieldDecl>, n: int, m: int)
    requires
        0 <= n <= m,
        parse_fields(decls, n) is Err,
    ensures
        parse_fields(decls, m) == parse_fields(decls, n),
    decreases m - n,
{
    if n < m {
        lemma_parse_fields_error(decls, n, m - 1);
    }
}

/// Whether an attribute of this name on the struct is passed through.
pub open spec fn is_passed_through(name: Seq<char>) -> bool {
    name == "clippy"@ || name == "allow"@ || name == "deny"@ || name == "doc"@
}

/// What has been read of the attributes of the struct.
pub struct StructAttrsState {
    /// The attributes that are passed through.
    pub attributes: Seq<Attribute>,
    /// The derive requests.
    pub derives: Seq<Derive>,
}

/// An error about attribute `at` of the struct as a whole.
pub open spec fn struct_attr_error(kind: ErrorKind, at: usize) -> Error {
    Error::at_call_site(kind).in_attribute(None, at)
}

/// Reads attribute number `at` of the struct: lints and documentation are
/// passed through, one `derive` is read, and anything else is rejected.
pub open spec fn struct_attr_step(st: StructAttrsState, attr: Attribute, at: usize) -> Result<
    StructAttrsState,
    Error,
> {
    if attr.segments.len() == 0 {
        Err(struct_attr_error(ErrorKind::UnsupportedAttribute, at))
    } else if is_passed_through(attr.segments[0]@) {
        Ok(StructAttrsState { attributes: st.attributes.push(attr), ..st })
    } else if attr.segments[0]@ == "derive"@ {
        if st.derives.len() > 0 {
            Err(struct_attr_error(ErrorKind::MultipleDerives, at))
        } else {
            match derive_attribute(attr.tokens@) {
                Err(e) => Err(e.in_attribute(None, at)),
                Ok(derives) => Ok(StructAttrsState { derives, ..st }),
            }
        }
    } else {
        Err(struct_attr_error(ErrorKind::UnsupportedAttribute, at))
    }
}

/// Reads the first `n` attributes of the struct. The first attribute that is
/// rejected gives the error.
pub open spec fn struct_attrs_run(attrs: Seq<Attribute>, n: int) -> Result<StructAttrsState, Error>
    decreases n,
{
    if n <= 0 {
        Ok(StructAttrsState { attributes: Seq::empty(), derives: Seq::empty() })
    } else {
        match struct_attrs_run(attrs, n - 1) {
            Err(e) => Err(e),
            Ok(st) => struct_attr_step(st, attrs[n - 1], (n - 1) as usize),
        }
    }
}

/// An error in a prefix of the struct's attributes is the error of the whole.
pub proof fn lemma_struct_attrs_run_error(attrs: Seq<Attribute>, n: int, m: int)
    requires
        0 <= n <= m,
        struct_attrs_run(attrs, n) is Err,
    ensures
        struct_attrs_run(attrs, m) == struct_attrs_run(attrs, n),
    decreases m - n,
{
    if n < m {
        lemma_struct_attrs_run_error(attrs, n, m - 1);
    }
}

/// The lifetime that stands for `'this` in the internal items: the first
/// generic parameter where that is a lifetime, and `'static` otherwise.
pub open spec fn first_lifetime_of(generics: Generics) -> Seq<char> {
    if generics.params.len() > 0 && generics.params[0].kind == GenericParamKind::Lifetime {
        generics.params[0].ident@
    } else {
        "static"@
    }
}

/// The analysed form of a declaration, or the reason for which it is
/// rejected. Positional and unit structs are rejected first, then what is
/// wrong with the fields in their order, then a struct of fewer than two
/// fields, then one with no borrowed field, then what is wrong with the
/// attributes of the struct.
pub open spec fn parse_result(def: StructDecl) -> Result<StructInfoView, Error> {
    match def.fields {
        FieldsDecl::Unnamed => Err(Error::at_call_site(ErrorKind::TupleStruct)),
        FieldsDecl::Unit => Err(Error::at_call_site(ErrorKind::UnitStruct)),
        FieldsDecl::Named(decls) => match parse_fields(decls@, decls.len() as int) {
            Err(e) => Err(e),
            Ok(fields) => if fields.len() < 2 {
                Err(Error::at_call_site(ErrorKind::TooFewFields))
            } else if forall|j: int|
                0 <= j < fields.len() ==> (#[trigger] fields[j]).field_type == FieldType::Tail {
                Err(Error::at_call_site(ErrorKind::AllTail))
            } else {
                match struct_attrs_run(def.attrs@, def.attrs.len() as int) {
                    Err(e) => Err(e),
                    Ok(st) => Ok(
                        StructInfoView {
                            derives: st.derives,
                            ident: def.ident@,
                            internal_ident: def.ident@ + "Internal"@,
                            generics: def.generics,
                            vis: def.vis@,
                            fields,
                            first_lifetime: first_lifetime_of(def.generics),
                            attributes: st.attributes,
                        },
                    ),
                }
            },
        },
    }
}

fn parse_struct_attrs(attrs: Vec<Attribute>) -> (r: Result<(Vec<Attribute>, Vec<Derive>), Error>)
    ensures
        match struct_attrs_run(attrs@, attrs.len() as int) {
            Ok(st) => match r {
                Ok(read) => read.0@ == st.attributes && read.1@ == st.derives,
                Err(_) => false,
            },
            Err(e) => r is Err && r->Err_0 == e,
        },
{
    let mut attributes: Vec<Attribute> = Vec::new();
    let mut derives: Vec<Derive> = Vec::new();
    let ghost all = attrs@;
    let mut index: usize = 0;
    for attr in iter: attrs
        invariant
            index == iter.index(),
            all == attrs@,
            struct_attrs_run(all, iter.index() as int) == Ok::<StructAttrsState, Error>(
                StructAttrsState { attributes: attributes@, derives: derives@ },
            ),
    {
        let ghost at = iter.index() as int;
        proof {
            if struct_attrs_run(all, at + 1) is Err {
                lemma_struct_attrs_run_error(all, at + 1, all.len() as int);
            }
        }
        if attr.segments.len() == 0 {
            return Err(
                Error::at_call_site(ErrorKind::UnsupportedAttribute).in_attribute(None, index),
            );
        }
        let good = attr.segments[0] == String::from_str("clippy") || attr.segments[0]
            == String::from_str("allow") || attr.segments[0] == String::from_str("deny")
            || attr.segments[0] == String::from_str("doc");
        if good {
            attributes.push(attr);
        } else if attr.segments[0] == String::from_str("derive") {
            if derives.len() > 0 {
                return Err(
                    Error::at_call_site(ErrorKind::MultipleDerives).in_attribute(None, index),
                );
            } else {
                match parse_derive_attribute(&attr) {
                    Ok(read) => {
                        derives = read;
                    },
                    Err(e) => {
                        return Err(e.in_attribute(None, index));
                    },
                }
            }
        } else {
            return Err(
                Error::at_call_site(ErrorKind::UnsupportedAttribute).in_attribute(None, index),
            );
        }
        index += 1;
    }
    Ok((attributes, derives))
}

/// Analyses a declaration: classifies its fields and checks what was asked
/// for. The result is the one that [`parse_result`] describes; where it is an
/// analysed declaration, that declaration is well-formed.
pub fn parse_struct(def: StructDecl) -> (r: Result<StructInfo, Error>)
    ensures
        match parse_result(def) {
            Ok(view) => r is Ok && r->Ok_0@ == view && r->Ok_0.wf(),
            Err(e) => r is Err && r->Err_0 == e,
        },
{
    let StructDecl { attrs, vis, ident, generics, fields: declared } = def;
    let named = match declared {
        FieldsDecl::Named(named) => named,
        FieldsDecl::Unnamed => {
            return Err(Error::at_call_site(ErrorKind::TupleStruct));
        },
        FieldsDecl::Unit => {
            return Err(Error::at_call_site(ErrorKind::UnitStruct));
        },
    };
    let ghost decls = named@;
    let mut fields: Vec<StructFieldInfo> = Vec::new();
    let mut number: usize = 0;
    proof {
        assert(field_views(fields@) =~= Seq::<FieldView>::empty());
        assert(all_edges(fields@) =~= Seq::<BorrowRequest>::empty());
        lemma_accepted_empty();
    }
    for field in iter: named
        invariant
            decls == named@,
            def.fields == FieldsDecl::Named(named),
            number == iter.index(),
            fields.len() == number,
            parse_fields(decls, number as int) == Ok::<Seq<FieldView>, Error>(
                field_views(fields@),
            ),
            classified(field_roles(fields@), all_edges(fields@)),
            forall|i: int, k: int|
                0 <= i < fields.len() && 0 <= k < fields[i].borrows.len() ==> (
                #[trigger] fields[i].borrows[k]).index < i,
            forall|i: int|
                0 <= i < fields.len() && (#[trigger] fields[i]).borrows.len() > 0
                    ==> fields[i].self_referencing,
    {
        let ghost before = fields@;
        let ghost start = FieldAttrsState {
            roles: field_roles(before),
            borrows: Seq::empty(),
            self_referencing: false,
            covariant: covariance(field.ty),
        };
        proof {
            assert(view_names(field_views(before)) =~= field_names(before));
            assert(view_roles(field_views(before)) =~= field_roles(before));
            assert(all_edges(before) + Seq::<BorrowRequest>::empty() =~= all_edges(before));
            lemma_field_attrs_run_classified(
                field_names(before),
                start,
                field.attrs@,
                field.attrs.len() as int,
                number,
                all_edges(before),
            );
            if parse_fields(decls, number + 1) is Err {
                lemma_parse_fields_error(decls, number + 1, decls.len() as int);
            }
        }
        let covariant = type_is_covariant_over_this_lifetime(&field.ty);
        let (borrows, self_referencing, covariant) = match parse_field_attrs(
            &mut fields,
            &field.attrs,
            number,
            covariant,
        ) {
            Ok(read) => read,
            Err(e) => {
                return Err(e);
            },
        };
        // The field must not be reachable from outside the hidden module in
        // which everything is generated.
        let with_vis = submodule_contents_visiblity(&field.vis);
        let ghost changed = fields@;
        let parsed = StructFieldInfo {
            name: field.ident,
            typ: field.ty,
            field_type: FieldType::Tail,
            vis: with_vis,
            borrows,
            self_referencing,
            covariant,
        };
        fields.push(parsed);
        number += 1;
        proof {
            let end = field_attrs_run(
                field_names(before),
                start,
                field.attrs@,
                field.attrs.len() as int,
                (number - 1) as usize,
            )->Ok_0;
            lemma_all_edges_ignore_roles(before, changed);
            assert(fields@.drop_last() =~= changed);
            assert(all_edges(fields@) == all_edges(before) + parsed.borrows@);
            assert(field_views(fields@) =~= with_roles(field_views(before), end.roles).push(
                parsed@,
            ));
            let edges = all_edges(fields@);
            let roles = field_roles(fields@);
            assert(roles =~= field_roles(changed).push(FieldType::Tail));
            assert forall|k: int| 0 <= k < edges.len() implies (#[trigger] edges[k]).index
                != number - 1 by {}
            lemma_unborrowed_is_tail(edges, number - 1);
            assert(classified(roles, edges));
            assert forall|i: int, k: int|
                0 <= i < fields.len() && 0 <= k < fields[i].borrows.len() implies (
            #[trigger] fields[i].borrows[k]).index < i by {
                if i < number - 1 {
                    assert(fields[i].borrows == before[i].borrows);
                } else {
                    assert(edges[all_edges(before).len() + k] == parsed.borrows[k]);
                }
            }
            assert forall|i: int|
                0 <= i < fields.len() && (#[trigger] fields[i]).borrows.len()
                    > 0 implies fields[i].self_referencing by {
                if i < number - 1 {
                    assert(fields[i].borrows == before[i].borrows);
                    assert(fields[i].self_referencing == before[i].self_referencing);
                }
            }
        }
    }
    if fields.len() < 2 {
        return Err(Error::at_call_site(ErrorKind::TooFewFields));
    }
    let mut has_non_tail = false;
    let mut i: usize = 0;
    while i < fields.len()
        invariant
            i <= fields.len(),
            has_non_tail == exists|j: int|
                0 <= j < i && (#[trigger] fields[j]).field_type != FieldType::Tail,
        decreases fields.len() - i,
    {
        if !fields[i].field_type.is_tail() {
            has_non_tail = true;
        }
        i += 1;
    }
    proof {
        let views = field_views(fields@);
        if has_non_tail {
            let j = choose|j: int|
                0 <= j < fields.len() && (#[trigger] fields[j]).field_type != FieldType::Tail;
            assert(views[j].field_type != FieldType::Tail);
        } else {
            assert forall|j: int| 0 <= j < views.len() implies (#[trigger] views[j]).field_type
                == FieldType::Tail by {
                assert(fields[j].field_type == FieldType::Tail);
            }
        }
    }
    if !has_non_tail {
        return Err(Error::at_call_site(ErrorKind::AllTail));
    }
    let first_lifetime = if generics.params.len() > 0 {
        match generics.params[0].kind {
            GenericParamKind::Lifetime => generics.params[0].ident.clone(),
            _ => String::from_str("static"),
        }
    } else {
        String::from_str("static")
    };
    let (attributes, derives) = match parse_struct_attrs(attrs) {
        Ok(read) => read,
        Err(e) => {
            return Err(e);
        },
    };
    let internal_ident = ident.clone().concat("Internal");
    let info = StructInfo {
        derives,
        ident,
        internal_ident,
        generics,
        fields,
        vis,
        first_lifetime,
        attributes,
    };
    assert(info@.fields =~= field_views(info.fields@));
    assert forall|j: int| 0 <= j < info.fields.len() implies (
    #[trigger] info.fields[j]).field_type == role_of(all_edges(info.fields@), j) by {
        assert(field_roles(info.fields@)[j] == info.fields[j].field_type);
    }
    Ok(info)
}

/// What has been read of the options of the attribute.
pub struct OptionsState {
    pub options: Options,
    /// Whether an option was read and a comma must follow.
    pub expecting_comma: bool,
}

/// Reads one token of the options.
pub open spec fn option_step(st: OptionsState, token: TokenTree) -> Result<OptionsState, ErrorKind> {
    match token {
        TokenTree::Ident(word) => if st.expecting_comma {
            Err(ErrorKind::OptionExpectedComma)
        } else if word == "no_doc"@ {
            Ok(
                OptionsState {
                    options: Options { do_no_doc: true, ..st.options },
                    expecting_comma: true,
                },
            )
        } else if word == "pub_extras"@ {
            Ok(
                OptionsState {
                    options: Options { do_pub_extras: true, ..st.options },
                    expecting_comma: true,
                },
            )
        } else {
            Err(ErrorKind::UnknownOption)
        },
        TokenTree::Punct(c, _) => if !st.expecting_comma {
            Err(ErrorKind::OptionExpectedIdentifier)
        } else if c != ',' {
            Err(ErrorKind::OptionUnknownPunctuation)
        } else {
            Ok(OptionsState { expecting_comma: false, ..st })
        },
        _ => Err(ErrorKind::OptionUnknownSyntax),
    }
}

/// Reads the first `n` tokens of the options, starting with every option
/// switched off. The first token that is rejected gives the error, placed at
/// that token.
pub open spec fn options_run(tokens: Seq<TokenTree>, n: int) -> Result<OptionsState, Error>
    decreases n,
{
    if n <= 0 {
        Ok(
            OptionsState {
                options: Options { do_no_doc: false, do_pub_extras: false },
                expecting_comma: false,
            },
        )
    } else {
        match options_run(tokens, n - 1) {
            Err(e) => Err(e),
            Ok(st) => match option_step(st, tokens[n - 1]) {
                Err(kind) => Err(Error::at_token(kind, (n - 1) as usize)),
                Ok(next) => Ok(next),
            },
        }
    }
}

/// An error in a prefix of the options is the error of the whole.
pub proof fn lemma_options_run_error(tokens: Seq<TokenTree>, n: int, m: int)
    requires
        0 <= n <= m,
        options_run(tokens, n) is Err,
    ensures
        options_run(tokens, m) == options_run(tokens, n),
    decreases m - n,
{
    if n < m {
        lemma_options_run_error(tokens, n, m - 1);
    }
}

/// Reads the options given to the attribute: `no_doc` and `pub_extras`, with
/// commas between them.
pub fn parse_options(attr: &TokenStream) -> (r: Result<Options, Error>)
    ensures
        match options_run(attr@, attr@.len() as int) {
            Ok(st) => r == Ok::<Options, Error>(st.options),
            Err(e) => r == Err::<Options, Error>(e),
        },
{
    let mut options = Options { do_no_doc: false, do_pub_extras: false };
    let mut expecting_comma = false;
    let mut i: usize = 0;
    while i < attr.trees.len()
        invariant
            i <= attr.trees.len(),
            options_run(attr@, i as int) == Ok::<OptionsState, Error>(
                OptionsState { options, expecting_comma },
            ),
        ensures
            i == attr.trees.len(),
        decreases attr.trees.len() - i,
    {
        proof {
            if options_run(attr@, i + 1) is Err {
                lemma_options_run_error(attr@, i + 1, attr@.len() as int);
            }
        }
        match &attr.trees[i] {
            Token::Ident(word) => {
                if expecting_comma {
                    return Err(Error::at_token(ErrorKind::OptionExpectedComma, i));
                }
                if *word == String::from_str("no_doc") {
                    options.do_no_doc = true;
                } else if *word == String::from_str("pub_extras") {
                    options.do_pub_extras = true;
                } else {
                    return Err(Error::at_token(ErrorKind::UnknownOption, i));
                }
                expecting_comma = true;
            },
            Token::Punct(c, _) => {
                if !expecting_comma {
                    return Err(Error::at_token(ErrorKind::OptionExpectedIdentifier, i));
                }
                if *c != ',' {
                    return Err(Error::at_token(ErrorKind::OptionUnknownPunctuation, i));
                }
                expecting_comma = false;
            },
            Token::Literal(_) => {
                return Err(Error::at_token(ErrorKind::OptionUnknownSyntax, i));
            },
            Token::Group(d, inner) => {
                proof {
                    lemma_group_view(*d, *inner);
                }
                return Err(Error::at_token(ErrorKind::OptionUnknownSyntax, i));
            },
        }
        i += 1;
    }
    Ok(options)
}

} // verus!
