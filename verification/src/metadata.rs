//! What an image declares about itself: the components it is built from.

use std::marker::PhantomData;
use vstd::prelude::*;

use crate::component::{
    accepted, component_of, is_error, lemma_component_of_first_fields, record_error,
    record_errors, verdict, Component, ComponentModel,
};
use crate::csv::{feed, field_at, fields, first_fields, lines, parse_csv, Record, RecordHandler};
use crate::result::Error;
use crate::scan::lemma_first_where_is;
use crate::storage::Veclike;
use crate::text::{text_model, AsciiText};

verus! {

/// An entry is spelt as a name, a generation and up to four fields about
/// the vendor: its name, the name of its package, the version of the
/// package and an address to read more at.
pub const MAX_ENTRY_FIELDS: usize = 6;

/// What a [`Vendor`] says, apart from where its bytes live.
pub struct VendorModel {
    pub name: Option<Seq<u8>>,
    pub package_name: Option<Seq<u8>>,
    pub version: Option<Seq<u8>>,
    pub url: Option<Seq<u8>>,
}

/// Who shipped a component, in the vendor's own words. None of this bears
/// on whether the component is revoked; it is kept for people to read.
#[derive(Clone, Copy, Debug, PartialEq, Eq)]
pub struct Vendor<'a> {
    pub name: Option<AsciiText<'a>>,
    pub package_name: Option<AsciiText<'a>>,
    pub version: Option<AsciiText<'a>>,
    pub url: Option<AsciiText<'a>>,
}

impl<'a> View for Vendor<'a> {
    type V = VendorModel;

    open spec fn view(&self) -> VendorModel {
        VendorModel {
            name: text_model(self.name),
            package_name: text_model(self.package_name),
            version: text_model(self.version),
            url: text_model(self.url),
        }
    }
}

/// What a record says of the vendor: its third to sixth field, each of
/// which may be missing.
pub open spec fn vendor_of(record: Seq<Seq<u8>>) -> VendorModel {
    VendorModel {
        name: field_at(record, 2),
        package_name: field_at(record, 3),
        version: field_at(record, 4),
        url: field_at(record, 5),
    }
}

impl<'a> Vendor<'a> {
    /// Reads what `record` says of the vendor.
    pub fn from_record<const K: usize>(record: &Record<'a, K>) -> (vendor: Self)
        ensures
            vendor@ == vendor_of(record@),
    {
        Self {
            name: record.get_field(2),
            package_name: record.get_field(3),
            version: record.get_field(4),
            url: record.get_field(5),
        }
    }
}

impl<'a> Default for Vendor<'a> {
    /// The vendor of whom nothing is known.
    fn default() -> (vendor: Self)
        ensures
            vendor@ == (VendorModel { name: None, package_name: None, version: None, url: None }),
    {
        Self { name: None, package_name: None, version: None, url: None }
    }
}

/// What an [`Entry`] says, apart from where its bytes live.
pub struct EntryModel {
    pub component: ComponentModel,
    pub vendor: VendorModel,
}

/// One component that an image declares, with what its vendor says of it.
#[derive(Clone, Copy, Debug, PartialEq, Eq)]
pub struct Entry<'a> {
    pub component: Component<'a>,
    pub vendor: Vendor<'a>,
}

impl<'a> View for Entry<'a> {
    type V = EntryModel;

    open spec fn view(&self) -> EntryModel {
        EntryModel { component: self.component@, vendor: self.vendor@ }
    }
}

impl<'a> Entry<'a> {
    /// The entry for `component` as shipped by `vendor`.
    pub fn new(component: Component<'a>, vendor: Vendor<'a>) -> (entry: Self)
        ensures
            entry.component == component,
            entry.vendor == vendor,
    {
        Self { component, vendor }
    }
}

/// The sequence of models of a sequence of entries.
pub open spec fn entry_models(entries: Seq<Entry<'_>>) -> Seq<EntryModel> {
    Seq::new(entries.len(), |i: int| entries[i]@)
}

/// What a [`Metadata`] holds: its entries in the order of their
/// declaration, and the number of entries it has room for.
pub struct MetadataModel {
    pub entries: Seq<EntryModel>,
    pub capacity: nat,
}

/// The entry that a line declares, given that it declares a component.
pub open spec fn entry_of(line: Seq<u8>) -> EntryModel {
    EntryModel {
        component: component_of(fields(line))->Ok_0,
        vendor: vendor_of(first_fields(line, MAX_ENTRY_FIELDS as nat)),
    }
}

/// The entries that a buffer leaves in a store of `capacity` entries:
/// those of the lines that enter it, in the order of the buffer.
pub open spec fn parsed_entries(records: Seq<Seq<u8>>, capacity: nat) -> Seq<EntryModel> {
    Seq::new(accepted(records, capacity), |i: int| entry_of(records[i]))
}

/// What reading the buffer `input` makes of a store of `capacity`
/// entries, and how the reading ends. Nothing of what the store held
/// before is left, whether the reading ends well or not.
pub open spec fn parsed_metadata(capacity: nat, input: Seq<u8>) -> (
    MetadataModel,
    Result<(), Error>,
) {
    let records = lines(input);
    (
        MetadataModel { entries: parsed_entries(records, capacity), capacity },
        verdict(records, capacity),
    )
}

/// The entries that an image declares, in the order in which it declares
/// them. The order matters: when several entries are revoked, the first
/// one is reported.
#[derive(Debug, PartialEq, Eq)]
pub struct Metadata<'a, Storage: Veclike<Entry<'a>>> {
    entries: Storage,
    buffer: PhantomData<&'a [u8]>,
}

impl<'a, Storage: Veclike<Entry<'a>>> View for Metadata<'a, Storage> {
    type V = MetadataModel;

    closed spec fn view(&self) -> MetadataModel {
        MetadataModel { entries: entry_models(self.entries@), capacity: self.entries.capacity() }
    }
}

impl<'a, Storage: Veclike<Entry<'a>>> Metadata<'a, Storage> {
    /// Metadata that keeps its entries in `entries`. What `entries` already
    /// holds stays in it.
    pub fn new(entries: Storage) -> (metadata: Self)
        ensures
            metadata@ == (MetadataModel {
                entries: entry_models(entries@),
                capacity: entries.capacity(),
            }),
    {
        Self { entries, buffer: PhantomData }
    }

    /// Replaces the entries by those that `input` spells, one per line.
    /// Whatever was held before is dropped first.
    ///
    /// After an error the entries of the lines before the faulty one are
    /// held, and nothing else.
    pub fn parse(&mut self, input: &'a [u8]) -> (r: Result<(), Error>)
        ensures
            (final(self)@, r) == parsed_metadata(old(self)@.capacity, input@),
    {
        self.entries.clear();
        proof {
            let records = lines(input@);
            assert(self@.entries =~= state_after(records, self@.capacity, 0).entries);
            assert(records.skip(0) =~= records);
            lemma_feed_is_parsed::<Storage>(records, self@.capacity, 0);
        }
        parse_csv::<MAX_ENTRY_FIELDS, Self>(input, self)
    }

    /// The entries, in the order of their declaration.
    pub fn entries(&self) -> (entries: &[Entry<'a>])
        ensures
            entry_models(entries@) == self@.entries,
    {
        self.entries.as_slice()
    }
}

impl<'a, Storage: Veclike<Entry<'a>>> RecordHandler<'a, MAX_ENTRY_FIELDS> for Metadata<
    'a,
    Storage,
> {
    /// Every record has to declare a component and to find room in the
    /// store; what it says of the vendor is taken as it comes.
    open spec fn step(state: MetadataModel, index: nat, record: Seq<Seq<u8>>) -> (
        MetadataModel,
        Result<(), Error>,
    ) {
        match component_of(record) {
            Err(e) => (state, Err(e)),
            Ok(component) => if state.entries.len() < state.capacity {
                (
                    MetadataModel {
                        entries: state.entries.push(
                            EntryModel { component, vendor: vendor_of(record) },
                        ),
                        capacity: state.capacity,
                    },
                    Ok(()),
                )
            } else {
                (state, Err(Error::TooManyRecords))
            },
        }
    }

    fn handle(&mut self, index: usize, record: Record<'a, MAX_ENTRY_FIELDS>) -> (r: Result<
        (),
        Error,
    >) {
        match Component::from_record(&record) {
            Err(e) => Err(e),
            Ok(component) => {
                let ghost before = self.entries@;
                let entry = Entry::new(component, Vendor::from_record(&record));
                let r = self.entries.try_push(entry);
                assert(r is Ok ==> entry_models(before.push(entry)) =~= entry_models(before).push(
                    entry@,
                ));
                r
            },
        }
    }
}

/// What a store of `capacity` entries holds once the first `k` lines of a
/// buffer have entered it.
spec fn state_after(records: Seq<Seq<u8>>, capacity: nat, k: nat) -> MetadataModel {
    MetadataModel { entries: Seq::new(k, |i: int| entry_of(records[i])), capacity }
}

/// Handing the lines of a buffer over one by one, from the `k`-th on, ends
/// as [`parsed_metadata`] says, given that the lines before have entered
/// the store.
proof fn lemma_feed_is_parsed<'a, Storage: Veclike<Entry<'a>>>(
    records: Seq<Seq<u8>>,
    capacity: nat,
    k: nat,
)
    requires
        k <= records.len(),
        forall|j: int|
            0 <= j < k ==> record_error(#[trigger] records[j], j as nat, capacity) is None,
    ensures
        feed::<MAX_ENTRY_FIELDS, Metadata<'a, Storage>>(
            state_after(records, capacity, k),
            records.skip(k as int),
            k,
        ) == (
            MetadataModel { entries: parsed_entries(records, capacity), capacity },
            verdict(records, capacity),
        ),
    decreases records.len() - k,
{
    let errors = record_errors(records, capacity);
    let state = state_after(records, capacity, k);
    let rest = records.skip(k as int);
    assert forall|j: int| 0 <= j < k implies !is_error()(#[trigger] errors[j]) by {
        assert(record_error(records[j], j as nat, capacity) is None);
    }
    if k == records.len() {
        lemma_first_where_is(errors, is_error(), k);
        assert(parsed_entries(records, capacity) =~= state.entries);
    } else {
        let line = records[k as int];
        assert(rest[0] == line);
        assert(rest.drop_first() =~= records.skip(k as int + 1));
        lemma_component_of_first_fields(line, MAX_ENTRY_FIELDS as nat);
        if record_error(line, k, capacity) is Some {
            assert(is_error()(errors[k as int]));
            lemma_first_where_is(errors, is_error(), k);
            assert(parsed_entries(records, capacity) =~= state.entries);
        } else {
            let record = first_fields(line, MAX_ENTRY_FIELDS as nat);
            let next = Metadata::<'a, Storage>::step(state, k, record).0;
            let after = state_after(records, capacity, (k + 1) as nat);
            assert(next.entries =~= after.entries);
            assert(next == after);
            lemma_feed_is_parsed::<Storage>(records, capacity, (k + 1) as nat);
        }
    }
}

} // verus!
