//! Components: a name and the generation it has reached.

use vstd::prelude::*;

use crate::csv::{fields, first_fields, line_error, Record};
use crate::generation::{parse_generation, Generation};
use crate::result::Error;
use crate::scan::{first_where, lemma_first_where};
use crate::text::AsciiText;

verus! {

/// What a [`Component`] says, apart from where its bytes live.
pub struct ComponentModel {
    pub name: Seq<u8>,
    pub generation: nat,
}

/// A named unit of boot code together with its generation. In a revocation
/// list the generation is the lowest one still allowed; in an image it is
/// the one the image was built with.
///
/// The name is borrowed from the buffer it was read from.
#[derive(Clone, Copy, Debug, PartialEq, Eq)]
pub struct Component<'a> {
    pub name: AsciiText<'a>,
    pub generation: Generation,
}

impl<'a> View for Component<'a> {
    type V = ComponentModel;

    open spec fn view(&self) -> ComponentModel {
        ComponentModel { name: self.name@, generation: self.generation@ }
    }
}

/// The sequence of models of a sequence of components.
pub open spec fn component_models(components: Seq<Component<'_>>) -> Seq<ComponentModel> {
    Seq::new(components.len(), |i: int| components[i]@)
}

/// The component that a record declares. Its first field is the name,
/// its second the generation, and both must be there: a record that stops
/// short is [`Error::TooFewFields`], and one whose second field spells no
/// generation is [`Error::InvalidGeneration`]. Further fields are not
/// looked at.
pub open spec fn component_of(record: Seq<Seq<u8>>) -> Result<ComponentModel, Error> {
    if record.len() < 2 {
        Err(Error::TooFewFields)
    } else {
        match parse_generation(record[1]) {
            Some(generation) => Ok(ComponentModel { name: record[0], generation }),
            None => Err(Error::InvalidGeneration),
        }
    }
}

/// Why the line at position `index` of a list cannot enter a store of
/// `capacity` components that was empty when the reading began, if it
/// cannot. In this order: a byte that has no place in the line; a missing
/// or misspelt field; no room left.
pub open spec fn record_error(line: Seq<u8>, index: nat, capacity: nat) -> Option<Error> {
    match line_error(line) {
        Some(e) => Some(e),
        None => match component_of(fields(line)) {
            Err(e) => Some(e),
            Ok(_) => if index >= capacity {
                Some(Error::TooManyRecords)
            } else {
                None
            },
        },
    }
}

/// For each line of a list, why it cannot enter the store.
pub open spec fn record_errors(records: Seq<Seq<u8>>, capacity: nat) -> Seq<Option<Error>> {
    Seq::new(records.len(), |i: int| record_error(records[i], i as nat, capacity))
}

/// The test for being an error.
pub open spec fn is_error() -> spec_fn(Option<Error>) -> bool {
    |e: Option<Error>| e is Some
}

/// How many lines of a list enter the store: all those before the first
/// that cannot.
pub open spec fn accepted(records: Seq<Seq<u8>>, capacity: nat) -> nat {
    first_where(record_errors(records, capacity), is_error())
}

/// How reading a list ends: well if every line entered the store, else
/// with the error of the first line that did not.
pub open spec fn verdict(records: Seq<Seq<u8>>, capacity: nat) -> Result<(), Error> {
    let kept = accepted(records, capacity);
    if kept >= records.len() {
        Ok(())
    } else {
        Err(record_error(records[kept as int], kept, capacity)->Some_0)
    }
}

/// The lines that enter the store are free of errors, and the line after
/// them, if there is one, has an error. So a reading ends well exactly if
/// no line has an error, and that takes a store with room for every line.
pub proof fn lemma_accepted(records: Seq<Seq<u8>>, capacity: nat)
    ensures
        accepted(records, capacity) <= records.len(),
        forall|j: int|
            0 <= j < accepted(records, capacity) ==> record_error(
                #[trigger] records[j],
                j as nat,
                capacity,
            ) is None,
        accepted(records, capacity) < records.len() ==> record_error(
            records[accepted(records, capacity) as int],
            accepted(records, capacity),
            capacity,
        ) is Some,
        verdict(records, capacity) is Ok <==> forall|j: int|
            0 <= j < records.len() ==> record_error(#[trigger] records[j], j as nat, capacity)
                is None,
        verdict(records, capacity) is Ok ==> records.len() <= capacity,
{
    let errors = record_errors(records, capacity);
    let kept = accepted(records, capacity);
    lemma_first_where(errors, is_error());
    assert forall|j: int| 0 <= j < kept implies record_error(
        #[trigger] records[j],
        j as nat,
        capacity,
    ) is None by {
        assert(!is_error()(errors[j]));
    }
    if kept < records.len() {
        assert(is_error()(errors[kept as int]));
    } else if records.len() > 0 {
        let last = records.len() - 1;
        assert(record_error(records[last], last as nat, capacity) is None);
    }
}

/// A record of at least two fields declares the component that its whole
/// line declares.
pub proof fn lemma_component_of_first_fields(line: Seq<u8>, max: nat)
    requires
        max >= 2,
    ensures
        component_of(first_fields(line, max)) == component_of(fields(line)),
{
}

impl<'a> Component<'a> {
    /// Reads the component that `record` declares.
    pub fn from_record<const K: usize>(record: &Record<'a, K>) -> (r: Result<Self, Error>)
        ensures
            match component_of(record@) {
                Ok(model) => r is Ok && r->Ok_0@ == model,
                Err(e) => r == Err::<Self, Error>(e),
            },
    {
        let name = match record.get_field(0) {
            Some(name) => name,
            None => {
                return Err(Error::TooFewFields);
            },
        };
        let generation = match record.get_field_as_generation(1) {
            Err(e) => {
                return Err(e);
            },
            Ok(None) => {
                return Err(Error::TooFewFields);
            },
            Ok(Some(generation)) => generation,
        };
        Ok(Self { name, generation })
    }

    /// The component called `name` at `generation`.
    pub fn new(name: AsciiText<'a>, generation: Generation) -> (component: Self)
        ensures
            component.name == name,
            component.generation == generation,
    {
        Self { name, generation }
    }
}

impl<'a> Default for Component<'a> {
    /// The component with the empty name at generation zero.
    fn default() -> (component: Self)
        ensures
            component@ == (ComponentModel { name: Seq::empty(), generation: 0 }),
    {
        Self { name: AsciiText::empty(), generation: Generation::new(0) }
    }
}

} // verus!
