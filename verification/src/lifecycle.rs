//! A model of what a generated struct does when it runs: how its
//! constructors bring the fields into being, what its accessors read, and
//! how it is taken apart.
//!
//! The model follows the analysed declaration step by step, in the order in
//! which the generated constructors and teardown operations handle the
//! fields. Field values are numbers; a field that is built from what it
//! borrows may hold a reference to the first field it borrows.
//!
//! What is proved here of a run (the round trip through the heads, the stop
//! at the first builder that fails, the values that are read) is proved of
//! this model, not of the emitted program: the generators fix the tokens of
//! that program, and no contract over tokens says what they compute. The
//! model is tied to the tokens where tokens allow it. The fields whose
//! builders the model calls are the fields for which the constructor holds a
//! builder call; the heads that the model hands back are the fields named in
//! the emitted struct of the heads; a slot is boxed exactly where the stored
//! type is the box; and the order in which the model drops the fields is the
//! order of the fields in the emitted storing struct.

use vstd::prelude::*;
use crate::generate::constructor::boxing_code;
use crate::generate::into_heads::{
    head_positions, head_value, head_values, lemma_head_values_name_the_heads, teardown_code,
    teardown_step,
};
use crate::generate::struc::{storage_order, stored_field_def, stored_field_defs};
use crate::generate::try_constructor::{
    attempt, fallible_field_code, lemma_recovered_heads_name_the_heads, recovered_head_values,
};
use crate::info_structures::{BuilderType, FieldType, StructInfo};
use crate::tokens::{Emit, TokenTree, tokens};

verus! {

/// What the builder of a field does when it is called.
#[derive(Clone, Copy, Debug, PartialEq, Eq, Structural)]
pub enum BuilderOutcome {
    /// It returns a value of its own.
    Returns(u64),
    /// It hands back the first reference that it was given.
    Borrows,
    /// It fails with an error.
    Fails(u64),
}

/// What is passed to a constructor for one field.
#[derive(Clone, Copy, Debug, PartialEq, Eq, Structural)]
pub enum FieldInput {
    /// The value of a field that borrows nothing.
    Value(u64),
    /// The builder of a field that borrows from others.
    Builder(BuilderOutcome),
}

/// What a stored field holds.
#[derive(Clone, Copy, Debug, PartialEq, Eq, Structural)]
pub enum Content {
    /// A value.
    Value(u64),
    /// A reference to the field with the given number.
    Reference(usize),
}

/// One stored field.
#[derive(Clone, Copy, Debug, PartialEq, Eq, Structural)]
pub struct Slot {
    /// Whether the field lives in an address-stable box.
    pub boxed: bool,
    pub content: Content,
}

/// A constructed struct: its stored fields, by declaration number.
#[derive(Debug, PartialEq, Eq)]
pub struct Instance {
    pub slots: Vec<Slot>,
}

/// What a fallible constructor hands back when a builder fails.
#[derive(Debug, PartialEq, Eq)]
pub struct Failure {
    /// The error of the builder that failed.
    pub error: u64,
    /// The head fields, each with its declaration number and its value.
    pub heads: Vec<(usize, u64)>,
}

/// What happened in one run of a constructor.
#[derive(Debug, PartialEq, Eq)]
pub struct Construction {
    /// The struct, or the failure.
    pub result: Result<Instance, Failure>,
    /// The fields whose builders were called, in the order of the calls.
    pub called: Vec<usize>,
}

/// Whether the inputs fit the declaration: one for each field, a builder
/// exactly for the fields that borrow from others.
pub open spec fn inputs_fit(info: StructInfo, inputs: Seq<FieldInput>) -> bool {
    &&& inputs.len() == info.fields.len()
    &&& forall|i: int|
        0 <= i < inputs.len() ==> ((#[trigger] inputs[i]) is Builder <==> info.fields[i].borrows.len()
            > 0)
}

/// What field number `i` holds once it is brought into being, or the error
/// of its builder.
pub open spec fn built(info: StructInfo, inputs: Seq<FieldInput>, i: int) -> Result<Content, u64> {
    match inputs[i] {
        FieldInput::Value(v) => Ok(Content::Value(v)),
        FieldInput::Builder(BuilderOutcome::Returns(v)) => Ok(Content::Value(v)),
        FieldInput::Builder(BuilderOutcome::Borrows) => Ok(
            Content::Reference(info.fields[i].borrows[0].index),
        ),
        FieldInput::Builder(BuilderOutcome::Fails(e)) => Err(e),
    }
}

/// The number of the first field whose builder fails, if one does.
pub open spec fn first_failure(info: StructInfo, inputs: Seq<FieldInput>, from: int) -> Option<int>
    decreases inputs.len() - from,
{
    if from < 0 || from >= inputs.len() {
        None
    } else if built(info, inputs, from) is Err {
        Some(from)
    } else {
        first_failure(info, inputs, from + 1)
    }
}

/// The fields among the first `n` that have a builder, in declaration order.
pub open spec fn builders_before(inputs: Seq<FieldInput>, n: int) -> Seq<usize>
    decreases n,
{
    if n <= 0 {
        Seq::empty()
    } else if inputs[n - 1] is Builder {
        builders_before(inputs, n - 1).push((n - 1) as usize)
    } else {
        builders_before(inputs, n - 1)
    }
}

/// The head fields among the first `n`, each with the value passed in for it.
pub open spec fn supplied_heads(info: StructInfo, inputs: Seq<FieldInput>, n: int) -> Seq<
    (usize, u64),
>
    decreases n,
{
    if n <= 0 {
        Seq::empty()
    } else if !info.fields[n - 1].self_referencing && inputs[n - 1] is Value {
        supplied_heads(info, inputs, n - 1).push(((n - 1) as usize, inputs[n - 1]->Value_0))
    } else {
        supplied_heads(info, inputs, n - 1)
    }
}

/// The stored form of field number `i`: in a box exactly if another field
/// borrows it.
pub open spec fn stored_slot(info: StructInfo, inputs: Seq<FieldInput>, i: int) -> Slot {
    Slot {
        boxed: info.fields[i].field_type != FieldType::Tail,
        content: built(info, inputs, i)->Ok_0,
    }
}

/// What a run of the fallible constructor that recovers the heads gives. The
/// fields are brought into being in declaration order. The first builder
/// that fails ends the run: no builder of a later field is called, and the
/// head fields come back with the values that were passed in.
pub open spec fn constructed(info: StructInfo, inputs: Seq<FieldInput>, run: Construction) -> bool {
    match first_failure(info, inputs, 0) {
        Some(at) => {
            &&& run.called@ == builders_before(inputs, at + 1)
            &&& run.result is Err
            &&& run.result->Err_0.error == built(info, inputs, at)->Err_0
            &&& run.result->Err_0.heads@ == supplied_heads(info, inputs, inputs.len() as int)
        },
        None => {
            &&& run.called@ == builders_before(inputs, inputs.len() as int)
            &&& run.result is Ok
            &&& run.result->Ok_0.slots@ == Seq::new(
                inputs.len(),
                |i: int| stored_slot(info, inputs, i),
            )
        },
    }
}

/// The head fields among the first `n` stored fields, each with the value it
/// holds, taken out of its box where it is in one.
pub open spec fn stored_heads(info: StructInfo, slots: Seq<Slot>, n: int) -> Seq<(usize, u64)>
    decreases n,
{
    if n <= 0 {
        Seq::empty()
    } else if !info.fields[n - 1].self_referencing && slots[n - 1].content is Value {
        stored_heads(info, slots, n - 1).push(((n - 1) as usize, slots[n - 1].content->Value_0))
    } else {
        stored_heads(info, slots, n - 1)
    }
}

/// Runs the fallible constructor that recovers the heads.
pub fn try_new_or_recover(info: &StructInfo, inputs: &Vec<FieldInput>) -> (run: Construction)
    requires
        info.wf(),
        inputs_fit(*info, inputs@),
    ensures
        constructed(*info, inputs@, run),
{
    let n = inputs.len();
    let mut slots: Vec<Slot> = Vec::new();
    let mut called: Vec<usize> = Vec::new();
    let mut i: usize = 0;
    while i < n
        invariant
            info.wf(),
            inputs_fit(*info, inputs@),
            n == inputs.len(),
            i <= n,
            first_failure(*info, inputs@, 0) == first_failure(*info, inputs@, i as int),
            called@ == builders_before(inputs@, i as int),
            slots.len() == i,
            forall|j: int| 0 <= j < i ==> (#[trigger] slots[j]) == stored_slot(*info, inputs@, j),
        decreases n - i,
    {
        let field = &info.fields[i];
        let content = match inputs[i] {
            FieldInput::Value(v) => Content::Value(v),
            FieldInput::Builder(outcome) => {
                called.push(i);
                match outcome {
                    BuilderOutcome::Returns(v) => Content::Value(v),
                    BuilderOutcome::Borrows => Content::Reference(field.borrows[0].index),
                    BuilderOutcome::Fails(error) => {
                        let heads = recover_heads(info, inputs);
                        return Construction { result: Err(Failure { error, heads }), called };
                    },
                }
            },
        };
        slots.push(Slot { boxed: field.is_borrowed(), content });
        i += 1;
    }
    assert(slots@ =~= Seq::new(inputs.len() as nat, |i: int| stored_slot(*info, inputs@, i)));
    Construction { result: Ok(Instance { slots }), called }
}

fn recover_heads(info: &StructInfo, inputs: &Vec<FieldInput>) -> (heads: Vec<(usize, u64)>)
    requires
        inputs@.len() == info.fields.len(),
    ensures
        heads@ == supplied_heads(*info, inputs@, inputs.len() as int),
{
    let mut heads: Vec<(usize, u64)> = Vec::new();
    let mut h: usize = 0;
    while h < inputs.len()
        invariant
            h <= inputs.len(),
            inputs@.len() == info.fields.len(),
            heads@ == supplied_heads(*info, inputs@, h as int),
        decreases inputs.len() - h,
    {
        if !info.fields[h].self_referencing {
            match inputs[h] {
                FieldInput::Value(v) => {
                    heads.push((h, v));
                },
                FieldInput::Builder(_) => {},
            }
        }
        h += 1;
    }
    heads
}

/// Runs the fallible constructor that hands back only the error.
pub fn try_new(info: &StructInfo, inputs: &Vec<FieldInput>) -> (r: Result<Instance, u64>)
    requires
        info.wf(),
        inputs_fit(*info, inputs@),
    ensures
        match first_failure(*info, inputs@, 0) {
            Some(at) => r == Err::<Instance, u64>(built(*info, inputs@, at)->Err_0),
            None => r is Ok && r->Ok_0.slots@ == Seq::new(
                inputs.len() as nat,
                |i: int| stored_slot(*info, inputs@, i),
            ),
        },
{
    match try_new_or_recover(info, inputs).result {
        Ok(instance) => Ok(instance),
        Err(failure) => Err(failure.error),
    }
}

/// Whether the struct is one that the declaration describes: one slot for
/// each field, and every reference to a field declared earlier.
pub open spec fn instance_fits(info: StructInfo, instance: Instance) -> bool {
    &&& instance.slots.len() == info.fields.len()
    &&& forall|i: int|
        0 <= i < instance.slots.len() ==> match (#[trigger] instance.slots[i]).content {
            Content::Reference(target) => target < i,
            Content::Value(_) => true,
        }
}

/// The value that a read of field number `i` arrives at, through the
/// references on the way.
pub open spec fn value_of(slots: Seq<Slot>, i: int) -> u64
    decreases i,
{
    if i < 0 || i >= slots.len() {
        0
    } else {
        match slots[i].content {
            Content::Value(v) => v,
            Content::Reference(target) => if target < i {
                value_of(slots, target as int)
            } else {
                0
            },
        }
    }
}

/// Reads field number `field` through its scoped accessor.
pub fn with_field(info: &StructInfo, instance: &Instance, field: usize) -> (value: u64)
    requires
        instance_fits(*info, *instance),
        field < instance.slots.len(),
    ensures
        value == value_of(instance.slots@, field as int),
{
    let mut at = field;
    loop
        invariant
            instance_fits(*info, *instance),
            at < instance.slots.len(),
            value_of(instance.slots@, at as int) == value_of(instance.slots@, field as int),
        decreases at,
    {
        match instance.slots[at].content {
            Content::Value(v) => {
                return v;
            },
            Content::Reference(target) => {
                at = target;
            },
        }
    }
}

/// Takes the struct apart: the fields that carry a `borrows` attribute are
/// dropped, and the head fields are handed back, each with its declaration
/// number and its value.
pub fn into_heads(info: &StructInfo, instance: Instance) -> (heads: Vec<(usize, u64)>)
    requires
        instance.slots.len() == info.fields.len(),
    ensures
        heads@ == stored_heads(*info, instance.slots@, instance.slots.len() as int),
{
    let mut heads: Vec<(usize, u64)> = Vec::new();
    let mut h: usize = 0;
    while h < instance.slots.len()
        invariant
            h <= instance.slots.len(),
            instance.slots.len() == info.fields.len(),
            heads@ == stored_heads(*info, instance.slots@, h as int),
        decreases instance.slots.len() - h,
    {
        if !info.fields[h].self_referencing {
            match instance.slots[h].content {
                Content::Value(v) => {
                    heads.push((h, v));
                },
                Content::Reference(_) => {},
            }
        }
        h += 1;
    }
    heads
}

/// The numbers of the fields in the order in which they are dropped: that
/// in which they are stored, the field declared last first.
pub open spec fn drop_sequence(info: StructInfo) -> Seq<usize> {
    storage_order(Seq::new(info.fields.len() as nat, |i: int| i as usize))
}

/// The order in which the fields of a struct are dropped: that in which
/// they are stored, the field declared last first.
pub fn drop_order(info: &StructInfo) -> (order: Vec<usize>)
    ensures
        order@ == drop_sequence(*info),
{
    let n = info.fields.len();
    let mut order: Vec<usize> = Vec::new();
    let mut i: usize = 0;
    while i < n
        invariant
            n == info.fields.len(),
            i <= n,
            order.len() == i,
            forall|j: int| 0 <= j < i ==> (#[trigger] order[j]) == n - 1 - j,
        decreases n - i,
    {
        order.push(n - 1 - i);
        i += 1;
    }
    assert(order@ =~= storage_order(Seq::new(info.fields.len() as nat, |i: int| i as usize)));
    order
}

/// A struct that was constructed fits its declaration.
pub proof fn lemma_constructed_fits(info: StructInfo, inputs: Seq<FieldInput>, run: Construction)
    requires
        info.wf(),
        inputs_fit(info, inputs),
        constructed(info, inputs, run),
        run.result is Ok,
    ensures
        instance_fits(info, run.result->Ok_0),
{
    lemma_first_failure(info, inputs, 0);
    let instance = run.result->Ok_0;
    assert forall|i: int| 0 <= i < instance.slots.len() implies match (
    #[trigger] instance.slots[i]).content {
        Content::Reference(target) => target < i,
        Content::Value(_) => true,
    } by {
        assert(instance.slots[i] == stored_slot(info, inputs, i));
        if inputs[i] == FieldInput::Builder(BuilderOutcome::Borrows) {
            assert(info.fields[i].borrows.len() > 0);
            assert(info.fields[i].borrows[0].index < i);
        }
    }
}

/// Where `first_failure` finds a failure, that builder fails and no earlier
/// one from `from` on does; where it finds none, no builder from `from` on
/// fails.
pub proof fn lemma_first_failure(info: StructInfo, inputs: Seq<FieldInput>, from: int)
    requires
        0 <= from,
    ensures
        match first_failure(info, inputs, from) {
            Some(at) => from <= at < inputs.len() && built(info, inputs, at) is Err && forall|i: int|
                from <= i < at ==> built(info, inputs, i) is Ok,
            None => forall|i: int| from <= i < inputs.len() ==> built(info, inputs, i) is Ok,
        },
    decreases inputs.len() - from,
{
    if from < inputs.len() && built(info, inputs, from) is Ok {
        lemma_first_failure(info, inputs, from + 1);
    }
}

/// Round trip through the heads: a struct that is constructed and taken
/// apart at once gives back, for each head field, the value that was passed
/// in for it, and nothing of the fields that borrow from others.
pub proof fn lemma_heads_round_trip(info: StructInfo, inputs: Seq<FieldInput>, run: Construction)
    requires
        info.wf(),
        inputs_fit(info, inputs),
        constructed(info, inputs, run),
        run.result is Ok,
    ensures
        stored_heads(info, run.result->Ok_0.slots@, inputs.len() as int) == supplied_heads(
            info,
            inputs,
            inputs.len() as int,
        ),
{
    lemma_first_failure(info, inputs, 0);
    lemma_stored_heads_are_supplied(info, inputs, run.result->Ok_0.slots@, inputs.len() as int);
}

proof fn lemma_stored_heads_are_supplied(
    info: StructInfo,
    inputs: Seq<FieldInput>,
    slots: Seq<Slot>,
    n: int,
)
    requires
        info.wf(),
        inputs_fit(info, inputs),
        0 <= n <= inputs.len(),
        slots.len() == inputs.len(),
        forall|i: int| 0 <= i < inputs.len() ==> built(info, inputs, i) is Ok,
        forall|i: int| 0 <= i < inputs.len() ==> slots[i] == stored_slot(info, inputs, i),
    ensures
        stored_heads(info, slots, n) == supplied_heads(info, inputs, n),
    decreases n,
{
    if n > 0 {
        lemma_stored_heads_are_supplied(info, inputs, slots, n - 1);
        assert(slots[n - 1] == stored_slot(info, inputs, n - 1));
        assert(built(info, inputs, n - 1) is Ok);
        let field = info.fields[n - 1];
        if !field.self_referencing {
            // A head field carries no `borrows` attribute, so it borrows
            // nothing and its value is passed in directly.
            assert(field.borrows.len() == 0);
            assert(inputs[n - 1] is Value);
        }
    }
}

/// Abort on failure: when the builder of field number `at` is the first to
/// fail, exactly the builders of the fields up to `at` were called, in
/// declaration order; the builder of no later field was called; and the
/// heads that come back hold the values that were passed in.
pub proof fn lemma_failure_stops_construction(
    info: StructInfo,
    inputs: Seq<FieldInput>,
    run: Construction,
    at: int,
)
    requires
        info.wf(),
        inputs_fit(info, inputs),
        constructed(info, inputs, run),
        first_failure(info, inputs, 0) == Some(at),
    ensures
        run.result is Err,
        run.called@.len() > 0,
        run.called@.last() == at,
        forall|k: int| 0 <= k < run.called@.len() ==> (#[trigger] run.called@[k]) <= at,
        run.result->Err_0.heads@ == supplied_heads(info, inputs, inputs.len() as int),
{
    lemma_first_failure(info, inputs, 0);
    assert(inputs[at] is Builder);
    lemma_builders_before_bounded(inputs, at + 1);
}

/// The builders among the first `n` fields are fields among the first `n`.
pub proof fn lemma_builders_before_bounded(inputs: Seq<FieldInput>, n: int)
    ensures
        forall|k: int|
            0 <= k < builders_before(inputs, n).len() ==> (#[trigger] builders_before(inputs, n)[k])
                < n,
    decreases n,
{
    if n > 0 {
        lemma_builders_before_bounded(inputs, n - 1);
        let before = builders_before(inputs, n - 1);
        let all = builders_before(inputs, n);
        assert forall|k: int| 0 <= k < all.len() implies (#[trigger] all[k]) < n by {
            if k < before.len() {
                assert(all[k] == before[k]);
            }
        }
    }
}

/// A field is among the fields whose builders were called up to field number
/// `n` exactly if it stands before `n` and has a builder.
pub proof fn lemma_builders_before_members(inputs: Seq<FieldInput>, n: int, i: int)
    requires
        0 <= n <= inputs.len(),
        0 <= i < inputs.len(),
        inputs.len() <= usize::MAX,
    ensures
        builders_before(inputs, n).contains(i as usize) <==> i < n && inputs[i] is Builder,
    decreases n,
{
    if n > 0 {
        lemma_builders_before_members(inputs, n - 1, i);
        lemma_builders_before_bounded(inputs, n - 1);
        let before = builders_before(inputs, n - 1);
        let all = builders_before(inputs, n);
        if before.contains(i as usize) {
            let k = choose|k: int| 0 <= k < before.len() && before[k] == i as usize;
            assert(all[k] == i as usize);
        }
        if all.contains(i as usize) && !before.contains(i as usize) {
            let k = choose|k: int| 0 <= k < all.len() && all[k] == i as usize;
            if k < before.len() {
                assert(before[k] == i as usize);
            } else {
                assert(all[k] == (n - 1) as usize);
            }
        }
        if all.contains(i as usize) && before.contains(i as usize) {
            let k = choose|k: int| 0 <= k < before.len() && before[k] == i as usize;
            assert(before[k] < n - 1);
        }
        if i == n - 1 && inputs[i] is Builder {
            assert(all[all.len() - 1] == i as usize);
        }
    }
}

/// The model calls a builder where the constructor holds a builder call: for
/// a field with a builder, the statements of the emitted constructor start
/// with the call of that builder; for any other field they hold no call.
pub proof fn lemma_called_builders_stand_in_the_code(
    info: StructInfo,
    inputs: Seq<FieldInput>,
    builder_type: BuilderType,
    i: int,
)
    requires
        inputs_fit(info, inputs),
        0 <= i < inputs.len(),
    ensures
        builders_before(inputs, inputs.len() as int).contains(i as usize) <==> inputs[i] is Builder,
        inputs[i] is Builder ==> fallible_field_code(info, i, builder_type) == boxing_code(
            info.fields[i],
            attempt(info, i, builder_type),
        ),
        !(inputs[i] is Builder) ==> fallible_field_code(info, i, builder_type) == boxing_code(
            info.fields[i],
            tokens(),
        ),
{
    lemma_builders_before_members(inputs, inputs.len() as int, i);
    assert(inputs[i] is Builder <==> info.fields[i].borrows.len() > 0);
}

/// The heads that the model hands back are the head fields of the
/// declaration, each with the value that was passed in for it.
pub proof fn lemma_supplied_heads_are_the_heads(info: StructInfo, inputs: Seq<FieldInput>, n: int)
    requires
        info.wf(),
        inputs_fit(info, inputs),
        0 <= n <= inputs.len(),
    ensures
        supplied_heads(info, inputs, n).len() == head_positions(info.fields@, n).len(),
        forall|k: int|
            0 <= k < head_positions(info.fields@, n).len() ==> {
                let h = head_positions(info.fields@, n)[k];
                &&& (#[trigger] supplied_heads(info, inputs, n)[k]).0 == h
                &&& inputs[h] is Value
                &&& supplied_heads(info, inputs, n)[k].1 == inputs[h]->Value_0
            },
    decreases n,
{
    if n > 0 {
        lemma_supplied_heads_are_the_heads(info, inputs, n - 1);
        let field = info.fields[n - 1];
        if !field.self_referencing {
            // A head field carries no `borrows` attribute, so it borrows
            // nothing and its value is passed in directly.
            assert(field.borrows.len() == 0);
            assert(inputs[n - 1] is Value);
        }
    }
}

/// The heads that the model hands back on a failure are the fields named in
/// the emitted struct of the heads: the value at place `k` of the emitted
/// struct is that of the field of the head at place `k` of the model, taken
/// out of its box exactly if the field was boxed before the failure.
pub proof fn lemma_recovered_heads_tie(info: StructInfo, inputs: Seq<FieldInput>, at: int)
    requires
        info.wf(),
        inputs_fit(info, inputs),
    ensures
        ({
            let n = inputs.len() as int;
            &&& recovered_head_values(info, at, n).len() == supplied_heads(info, inputs, n).len()
            &&& forall|k: int|
                0 <= k < supplied_heads(info, inputs, n).len() ==> {
                    let h = supplied_heads(info, inputs, n)[k].0 as int;
                    #[trigger] recovered_head_values(info, at, n)[k] == head_value(
                        info.fields[h],
                        h < at,
                    )
                }
        }),
{
    let n = inputs.len() as int;
    lemma_supplied_heads_are_the_heads(info, inputs, n);
    lemma_recovered_heads_name_the_heads(info, at, n);
    assert forall|k: int| 0 <= k < supplied_heads(info, inputs, n).len() implies {
        let h = supplied_heads(info, inputs, n)[k].0 as int;
        #[trigger] recovered_head_values(info, at, n)[k] == head_value(info.fields[h], h < at)
    } by {
        assert(supplied_heads(info, inputs, n)[k].0 == head_positions(info.fields@, n)[k]);
    }
}

/// A slot of the model is boxed exactly where the emitted storing struct
/// holds the field in the address-stable box, and where the constructor
/// moves the field into that box.
pub proof fn lemma_boxed_slots_are_stored_boxed(info: StructInfo, inputs: Seq<FieldInput>, i: int)
    requires
        0 <= i < info.fields.len(),
    ensures
        stored_slot(info, inputs, i).boxed ==> info.fields[i].stored_type_tokens()
            == tokens().help("AliasableBox"@).punct('<').splice(info.fields[i].typ.tokens@).punct(
            '>',
        ),
        !stored_slot(info, inputs, i).boxed ==> info.fields[i].stored_type_tokens()
            == tokens().splice(info.fields[i].typ.tokens@),
        !stored_slot(info, inputs, i).boxed ==> forall|code: Seq<TokenTree>|
            #[trigger] boxing_code(info.fields[i], code) == code,
{
}

/// The order in which the model drops the fields is the order of the fields
/// in the emitted storing struct, and the order in which the emitted
/// `into_heads` handles them.
pub proof fn lemma_drop_order_is_storage_order(info: StructInfo, p: int)
    requires
        0 <= p < info.fields.len(),
    ensures
        drop_sequence(info).len() == info.fields.len(),
        drop_sequence(info)[p] == info.fields.len() - 1 - p,
        stored_field_defs(info)[p] == stored_field_def(
            info.fields[drop_sequence(info)[p] as int],
        ),
        teardown_code(info, p + 1) == teardown_step(
            info.fields[drop_sequence(info)[p] as int],
            teardown_code(info, p),
        ),
{
}

/// The heads that the model's `into_heads` gives are the fields named in the
/// struct of the heads that the emitted `into_heads` returns, each taken out
/// of its box where it is in one: both hold exactly the fields that carry no
/// `borrows` attribute.
pub proof fn lemma_into_heads_tie(info: StructInfo, slots: Seq<Slot>)
    requires
        slots.len() == info.fields.len(),
        forall|i: int| 0 <= i < slots.len() ==> (#[trigger] slots[i]).content is Value,
    ensures
        ({
            let n = info.fields.len() as int;
            let stored = storage_order(info.fields@);
            &&& stored_heads(info, slots, n).len() == head_positions(info.fields@, n).len()
            &&& forall|k: int|
                0 <= k < head_positions(info.fields@, n).len() ==> (#[trigger] stored_heads(
                    info,
                    slots,
                    n,
                )[k]).0 == head_positions(info.fields@, n)[k]
            &&& head_values(stored, n).len() == head_positions(stored, n).len()
            &&& forall|k: int|
                0 <= k < head_positions(stored, n).len() ==> #[trigger] head_values(stored, n)[k]
                    == head_value(stored[head_positions(stored, n)[k]], true)
        }),
{
    let n = info.fields.len() as int;
    lemma_stored_heads_positions(info, slots, n);
    lemma_head_values_name_the_heads(storage_order(info.fields@), n);
}

proof fn lemma_stored_heads_positions(info: StructInfo, slots: Seq<Slot>, n: int)
    requires
        0 <= n <= info.fields.len(),
        slots.len() == info.fields.len(),
        forall|i: int| 0 <= i < slots.len() ==> (#[trigger] slots[i]).content is Value,
    ensures
        stored_heads(info, slots, n).len() == head_positions(info.fields@, n).len(),
        forall|k: int|
            0 <= k < head_positions(info.fields@, n).len() ==> (#[trigger] stored_heads(
                info,
                slots,
                n,
            )[k]).0 == head_positions(info.fields@, n)[k],
    decreases n,
{
    if n > 0 {
        lemma_stored_heads_positions(info, slots, n - 1);
        assert(slots[n - 1].content is Value);
    }
}

} // verus!
