//! The revocation list and the questions it answers.

use vstd::prelude::*;

use crate::component::{
    accepted, component_models, component_of, is_error, lemma_component_of_first_fields,
    record_error, record_errors, verdict, Component, ComponentModel,
};
use crate::csv::{
    feed, field_at, fields, first_fields, line_error, lines, parse_csv, Record, RecordHandler,
};
use crate::metadata::{entry_models, Entry, EntryModel, Metadata};
use crate::result::Error;
use crate::scan::{first_where, lemma_first_where, lemma_first_where_is};
use crate::storage::Veclike;
use crate::text::{text_model, AsciiText};

verus! {

/// The first record of a list may carry a date behind the name and the
/// generation, so the records of a list have up to three fields.
pub const MAX_HEADER_FIELDS: usize = 3;

/// Whether an image may boot.
#[must_use]
#[derive(Clone, Copy, Debug, PartialEq, Eq)]
pub enum ValidationResult<'r, 'a> {
    /// No component of the image is revoked.
    Allowed,
    /// The image is revoked: this is the first of its entries that the
    /// list revokes. There may be more.
    Revoked(&'r Entry<'a>),
}

/// What a [`Revocations`] holds: the date of the list if it gave one, the
/// components in the order of the list, and the number of components it
/// has room for.
pub struct RevocationsModel {
    pub date: Option<Seq<u8>>,
    pub components: Seq<ComponentModel>,
    pub capacity: nat,
}

/// Whether the threshold `revoked` of a list revokes `component`: the
/// names are the same, byte for byte, and the component is older than the
/// threshold.
pub open spec fn revoked_by(component: ComponentModel, revoked: ComponentModel) -> bool {
    component.name == revoked.name && component.generation < revoked.generation
}

/// Whether a list revokes `component`: one of its thresholds does.
pub open spec fn revokes(list: Seq<ComponentModel>, component: ComponentModel) -> bool {
    exists|i: int| 0 <= i < list.len() && revoked_by(component, #[trigger] list[i])
}

/// The test for being an entry whose component `list` revokes.
pub open spec fn is_revoked_entry(list: Seq<ComponentModel>) -> spec_fn(EntryModel) -> bool {
    |entry: EntryModel| revokes(list, entry.component)
}

/// The position of the first of `entries` that `list` revokes, or their
/// number if it revokes none.
pub open spec fn first_revoked(list: Seq<ComponentModel>, entries: Seq<EntryModel>) -> nat {
    first_where(entries, is_revoked_entry(list))
}

/// The date that a list gives: the third field of its first record. There
/// is none if the list is empty, if the bytes of its first line are not in
/// order, or if that line has fewer than three fields.
pub open spec fn parsed_date(records: Seq<Seq<u8>>) -> Option<Seq<u8>> {
    if records.len() > 0 && line_error(records[0]) is None {
        field_at(first_fields(records[0], MAX_HEADER_FIELDS as nat), 2)
    } else {
        None
    }
}

/// The components that a list leaves in a store of `capacity` components:
/// those of the lines that enter it, in the order of the list.
pub open spec fn parsed_components(records: Seq<Seq<u8>>, capacity: nat) -> Seq<ComponentModel> {
    Seq::new(accepted(records, capacity), |i: int| component_of(fields(records[i]))->Ok_0)
}

/// What reading the buffer `input` makes of a store of `capacity`
/// components, and how the reading ends. Nothing of what the store held
/// before is left, whether the reading ends well or not.
pub open spec fn parsed_revocations(capacity: nat, input: Seq<u8>) -> (
    RevocationsModel,
    Result<(), Error>,
) {
    let records = lines(input);
    (
        RevocationsModel {
            date: parsed_date(records),
            components: parsed_components(records, capacity),
            capacity,
        },
        verdict(records, capacity),
    )
}

/// A revocation list: for each component it names, the lowest generation
/// that is still allowed. A component it does not name is allowed at any
/// generation.
#[derive(Debug, PartialEq, Eq)]
pub struct Revocations<'a, Storage: Veclike<Component<'a>>> {
    date: Option<AsciiText<'a>>,
    components: Storage,
}

impl<'a, Storage: Veclike<Component<'a>>> View for Revocations<'a, Storage> {
    type V = RevocationsModel;

    closed spec fn view(&self) -> RevocationsModel {
        RevocationsModel {
            date: text_model(self.date),
            components: component_models(self.components@),
            capacity: self.components.capacity(),
        }
    }
}

impl<'a, Storage: Veclike<Component<'a>>> Revocations<'a, Storage> {
    /// A list that keeps its components in `components`. What `components`
    /// already holds stays in it and counts as part of the list; there is
    /// no date.
    pub fn new(components: Storage) -> (revocations: Self)
        ensures
            revocations@ == (RevocationsModel {
                date: None,
                components: component_models(components@),
                capacity: components.capacity(),
            }),
    {
        Self { date: None, components }
    }

    /// Replaces the list by the one that `input` spells. Whatever the list
    /// held before is dropped first, the date too. Every line of `input`
    /// declares one component; the first line may give the date of the
    /// list in a third field.
    ///
    /// After an error the list holds the components of the lines before
    /// the faulty one, and the date if the first line was read. It is then
    /// neither the old list nor the new one: read again or drop it.
    pub fn parse(&mut self, input: &'a [u8]) -> (r: Result<(), Error>)
        ensures
            (final(self)@, r) == parsed_revocations(old(self)@.capacity, input@),
    {
        self.components.clear();
        self.date = None;
        proof {
            let records = lines(input@);
            assert(self@.components =~= state_after(records, self@.capacity, 0).components);
            assert(records.skip(0) =~= records);
            lemma_feed_is_parsed::<Storage>(records, self@.capacity, 0);
        }
        parse_csv::<MAX_HEADER_FIELDS, Self>(input, self)
    }

    /// The date of the list: the third field of its first record, if that
    /// record had one.
    pub fn date(&self) -> (date: &Option<AsciiText<'a>>)
        ensures
            text_model(*date) == self@.date,
    {
        &self.date
    }

    /// The components of the list in its own order. The generation of
    /// each is the lowest one still allowed.
    pub fn revoked_components(&self) -> (components: &[Component<'a>])
        ensures
            component_models(components@) == self@.components,
    {
        self.components.as_slice()
    }

    /// Whether the list revokes `input`: it holds a component of the same
    /// name with a higher generation.
    #[must_use]
    pub fn is_component_revoked(&self, input: &Component) -> (revoked: bool)
        ensures
            revoked == revokes(self@.components, input@),
    {
        let items = self.components.as_slice();
        let mut i: usize = 0;
        while i < items.len()
            invariant
                items@ == self.components@,
                i <= items@.len(),
                forall|j: int| 0 <= j < i ==> !revoked_by(input@, #[trigger] self@.components[j]),
            decreases items@.len() - i,
        {
            let item = &items[i];
            if input.name.same_as(&item.name) && input.generation.is_older_than(item.generation) {
                assert(revoked_by(input@, self@.components[i as int]));
                return true;
            }
            i += 1;
        }
        false
    }

    /// Checks the entries of `metadata` in the order of their declaration
    /// and stops at the first one that the list revokes.
    pub fn validate_metadata<'r, 'b, MetadataStorage: Veclike<Entry<'b>>>(
        &self,
        metadata: &'r Metadata<'b, MetadataStorage>,
    ) -> (result: ValidationResult<'r, 'b>)
        ensures
            match result {
                ValidationResult::Allowed => first_revoked(self@.components, metadata@.entries)
                    == metadata@.entries.len(),
                ValidationResult::Revoked(entry) => {
                    let first = first_revoked(self@.components, metadata@.entries);
                    first < metadata@.entries.len() && entry@ == metadata@.entries[first as int]
                },
            },
    {
        let entries = metadata.entries();
        let mut i: usize = 0;
        while i < entries.len()
            invariant
                entry_models(entries@) == metadata@.entries,
                i <= entries@.len(),
                forall|j: int|
                    0 <= j < i ==> !is_revoked_entry(self@.components)(
                        #[trigger] metadata@.entries[j],
                    ),
            decreases entries@.len() - i,
        {
            let entry = &entries[i];
            if self.is_component_revoked(&entry.component) {
                proof {
                    assert(entry@ == metadata@.entries[i as int]);
                    lemma_first_where_is(
                        metadata@.entries,
                        is_revoked_entry(self@.components),
                        i as nat,
                    );
                }
                return ValidationResult::Revoked(entry);
            }
            i += 1;
        }
        proof {
            lemma_first_where_is(
                metadata@.entries,
                is_revoked_entry(self@.components),
                metadata@.entries.len(),
            );
        }
        ValidationResult::Allowed
    }
}

impl<'a, Storage: Veclike<Component<'a>>> RecordHandler<'a, MAX_HEADER_FIELDS> for Revocations<
    'a,
    Storage,
> {
    /// The first record of a buffer sets the date, to its third field or
    /// to none. Every record then has to declare a component and to find
    /// room in the store.
    open spec fn step(state: RevocationsModel, index: nat, record: Seq<Seq<u8>>) -> (
        RevocationsModel,
        Result<(), Error>,
    ) {
        let date = if index == 0 {
            field_at(record, 2)
        } else {
            state.date
        };
        match component_of(record) {
            Err(e) => (RevocationsModel { date, ..state }, Err(e)),
            Ok(component) => if state.components.len() < state.capacity {
                (
                    RevocationsModel {
                        date,
                        components: state.components.push(component),
                        capacity: state.capacity,
                    },
                    Ok(()),
                )
            } else {
                (RevocationsModel { date, ..state }, Err(Error::TooManyRecords))
            },
        }
    }

    fn handle(&mut self, index: usize, record: Record<'a, MAX_HEADER_FIELDS>) -> (r: Result<
        (),
        Error,
    >) {
        if index == 0 {
            self.date = record.get_field(2);
        }
        match Component::from_record(&record) {
            Err(e) => Err(e),
            Ok(component) => {
                let ghost before = self.components@;
                let r = self.components.try_push(component);
                assert(r is Ok ==> component_models(before.push(component)) =~= component_models(
                    before,
                ).push(component@));
                r
            },
        }
    }
}

/// What a store of `capacity` components holds once the first `k` lines
/// of a list have entered it.
spec fn state_after(records: Seq<Seq<u8>>, capacity: nat, k: nat) -> RevocationsModel {
    RevocationsModel {
        date: if k == 0 {
            None
        } else {
            parsed_date(records)
        },
        components: Seq::new(k, |i: int| component_of(fields(records[i]))->Ok_0),
        capacity,
    }
}

/// Handing the lines of a list over one by one, from the `k`-th on, ends
/// as [`parsed_revocations`] says, given that the lines before have entered the store.
proof fn lemma_feed_is_parsed<'a, Storage: Veclike<Component<'a>>>(
    records: Seq<Seq<u8>>,
    capacity: nat,
    k: nat,
)
    requires
        k <= records.len(),
        forall|j: int|
            0 <= j < k ==> record_error(#[trigger] records[j], j as nat, capacity) is None,
    ensures
        feed::<MAX_HEADER_FIELDS, Revocations<'a, Storage>>(
            state_after(records, capacity, k),
            records.skip(k as int),
            k,
        ) == (
            RevocationsModel {
                date: parsed_date(records),
                components: parsed_components(records, capacity),
                capacity,
            },
            verdict(records, capacity),
        ),
    decreases records.len() - k,
{
    let errors = record_errors(records, capacity);
    let state = state_after(records, capacity, k);
    let rest = records.skip(k as int);
    assert forall|j: int| 0 <= j < k implies !is_error()(#[trigger] errors[j]) by {
        assert(record_error(records[j], j as nat, capacity) is None);
    }
    if k == records.len() {
        lemma_first_where_is(errors, is_error(), k);
        assert(parsed_components(records, capacity) =~= state.components);
    } else {
        let line = records[k as int];
        assert(rest[0] == line);
        assert(rest.drop_first() =~= records.skip(k as int + 1));
        lemma_component_of_first_fields(line, MAX_HEADER_FIELDS as nat);
        if record_error(line, k, capacity) is Some {
            assert(is_error()(errors[k as int]));
            lemma_first_where_is(errors, is_error(), k);
            assert(parsed_components(records, capacity) =~= state.components);
        } else {
            let record = first_fields(line, MAX_HEADER_FIELDS as nat);
            let next = Revocations::<'a, Storage>::step(state, k, record).0;
            let after = state_after(records, capacity, (k + 1) as nat);
            assert(next.components =~= after.components);
            assert(next == after);
            lemma_feed_is_parsed::<Storage>(records, capacity, (k + 1) as nat);
        }
    }
}

/// A list revokes no component whose name it does not hold, whatever the
/// generation of the component.
pub proof fn lemma_absent_name_is_allowed(list: Seq<ComponentModel>, component: ComponentModel)
    requires
        forall|i: int| 0 <= i < list.len() ==> (#[trigger] list[i]).name != component.name,
    ensures
        !revokes(list, component),
{
}

/// A list revokes every generation below a threshold it holds for the
/// name.
pub proof fn lemma_below_threshold_is_revoked(
    list: Seq<ComponentModel>,
    i: int,
    generation: nat,
)
    requires
        0 <= i < list.len(),
        generation < list[i].generation,
    ensures
        revokes(list, ComponentModel { name: list[i].name, generation }),
{
    assert(revoked_by(ComponentModel { name: list[i].name, generation }, list[i]));
}

/// A list allows a generation at or above a threshold it holds for the
/// name, unless it holds a second threshold for the same name that lies
/// above that generation.
pub proof fn lemma_at_or_above_threshold_is_allowed(
    list: Seq<ComponentModel>,
    i: int,
    generation: nat,
)
    requires
        0 <= i < list.len(),
        generation >= list[i].generation,
        forall|j: int|
            0 <= j < list.len() && (#[trigger] list[j]).name == list[i].name
                ==> list[j].generation <= generation,
    ensures
        !revokes(list, ComponentModel { name: list[i].name, generation }),
{
}

/// In a list that holds no name twice, the threshold of a name decides
/// alone: a component of that name is revoked exactly below it.
pub proof fn lemma_threshold_decides(list: Seq<ComponentModel>, i: int, generation: nat)
    requires
        0 <= i < list.len(),
        forall|a: int, b: int|
            0 <= a < b < list.len() ==> (#[trigger] list[a]).name != (#[trigger] list[b]).name,
    ensures
        revokes(list, ComponentModel { name: list[i].name, generation }) <==> generation
            < list[i].generation,
{
    let component = ComponentModel { name: list[i].name, generation };
    if generation < list[i].generation {
        assert(revoked_by(component, list[i]));
    } else {
        assert forall|j: int| 0 <= j < list.len() implies !revoked_by(
            component,
            #[trigger] list[j],
        ) by {
            if j < i {
                assert(list[j].name != list[i].name);
            } else if i < j {
                assert(list[i].name != list[j].name);
            }
        }
    }
}

/// The entry that [`Revocations::validate_metadata`] reports is the first
/// revoked one in the order of declaration: the list revokes it and none
/// of the entries before it. Where it reports none, none is revoked.
pub proof fn lemma_first_revoked(list: Seq<ComponentModel>, entries: Seq<EntryModel>)
    ensures
        first_revoked(list, entries) <= entries.len(),
        forall|j: int|
            0 <= j < first_revoked(list, entries) ==> !revokes(
                list,
                (#[trigger] entries[j]).component,
            ),
        first_revoked(list, entries) < entries.len() ==> revokes(
            list,
            entries[first_revoked(list, entries) as int].component,
        ),
{
    lemma_first_where(entries, is_revoked_entry(list));
    assert forall|j: int| 0 <= j < first_revoked(list, entries) implies !revokes(
        list,
        (#[trigger] entries[j]).component,
    ) by {
        assert(!is_revoked_entry(list)(entries[j]));
    }
}

/// Reading the same buffer twice in a row leaves the store as reading it
/// once does, and ends the same way.
pub proof fn lemma_parse_is_idempotent(capacity: nat, input: Seq<u8>)
    ensures
        parsed_revocations(parsed_revocations(capacity, input).0.capacity, input)
            == parsed_revocations(capacity, input),
{
}

} // verus!
