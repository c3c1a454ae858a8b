use sbat::csv::{parse_csv, Record, RecordHandler};
use sbat::text::{is_allowed_in_field, same_bytes};
use sbat::{
    AsciiText, BoundedVec, Component, Entry, Error, Generation, Metadata, Revocations, Veclike,
    Vendor,
};

fn ascii(s: &str) -> AsciiText<'_> {
    AsciiText::from_ascii(s.as_bytes()).unwrap()
}

fn component(name: &str, gen: u32) -> Component<'_> {
    Component::new(ascii(name), Generation::new(gen))
}

fn parse_into(capacity: usize, input: &[u8]) -> (Result<(), Error>, Vec<(String, u32)>, Option<String>) {
    let mut revocations = Revocations::new(BoundedVec::new(capacity));
    let result = revocations.parse(input);
    let components = revocations
        .revoked_components()
        .iter()
        .map(|c| {
            (
                String::from_utf8(c.name.as_bytes().to_vec()).unwrap(),
                c.generation.to_u32(),
            )
        })
        .collect();
    let date = revocations
        .date()
        .map(|d| String::from_utf8(d.as_bytes().to_vec()).unwrap());
    (result, components, date)
}

fn names(list: &[(&str, u32)]) -> Vec<(String, u32)> {
    list.iter().map(|(n, g)| (n.to_string(), *g)).collect()
}

#[test]
fn final_line_feed_is_optional() {
    let with = parse_into(4, b"sbat,1\ncompA,2\n");
    let without = parse_into(4, b"sbat,1\ncompA,2");
    assert_eq!(with, without);
    assert_eq!(with.0, Ok(()));
    assert_eq!(with.1, names(&[("sbat", 1), ("compA", 2)]));
}

#[test]
fn carriage_return_before_line_feed_is_dropped() {
    let (result, components, date) = parse_into(4, b"sbat,1,2021030218\r\ncompA,2\r\n");
    assert_eq!(result, Ok(()));
    assert_eq!(components, names(&[("sbat", 1), ("compA", 2)]));
    assert_eq!(date.as_deref(), Some("2021030218"));
}

#[test]
fn carriage_return_at_the_end_of_the_buffer_is_dropped() {
    let (result, components, _) = parse_into(4, b"sbat,1\r");
    assert_eq!(result, Ok(()));
    assert_eq!(components, names(&[("sbat", 1)]));
}

#[test]
fn carriage_return_inside_a_line_is_refused() {
    let (result, components, _) = parse_into(4, b"sb\rat,1");
    assert_eq!(result, Err(Error::SpecialChar(b'\r')));
    assert!(components.is_empty());

    let (result, _, _) = parse_into(4, b"sbat,1\r\r\n");
    assert_eq!(result, Err(Error::SpecialChar(b'\r')));
}

#[test]
fn empty_line_is_a_record_without_generation() {
    let (result, components, _) = parse_into(4, b"sbat,1\n\ncompA,2");
    assert_eq!(result, Err(Error::TooFewFields));
    assert_eq!(components, names(&[("sbat", 1)]));

    let (result, components, _) = parse_into(4, b"\n");
    assert_eq!(result, Err(Error::TooFewFields));
    assert!(components.is_empty());

    let (result, _, _) = parse_into(4, b"sbat,1\n\n");
    assert_eq!(result, Err(Error::TooFewFields));
}

#[test]
fn non_ascii_byte_is_refused() {
    let (result, components, _) = parse_into(4, b"sbat,1\ncomp\xffA,2");
    assert_eq!(result, Err(Error::InvalidAscii));
    assert_eq!(components, names(&[("sbat", 1)]));

    let (result, _, _) = parse_into(4, b"\x80");
    assert_eq!(result, Err(Error::InvalidAscii));
}

#[test]
fn special_characters_are_refused_with_the_character() {
    for bad in [b'"', b'\'', b'\\', b'\t', 0u8, b'+', b';', b'@', 0x7f] {
        let mut input = b"sbat,1\nco".to_vec();
        input.push(bad);
        input.extend_from_slice(b"mp,2");
        let (result, components, _) = parse_into(4, &input);
        assert_eq!(result, Err(Error::SpecialChar(bad)));
        assert_eq!(components, names(&[("sbat", 1)]));
    }
}

#[test]
fn first_faulty_byte_of_a_line_decides() {
    let (result, _, _) = parse_into(4, b"a\"\xff,1");
    assert_eq!(result, Err(Error::SpecialChar(b'"')));
    let (result, _, _) = parse_into(4, b"a\xff\",1");
    assert_eq!(result, Err(Error::InvalidAscii));
}

#[test]
fn allowed_punctuation_passes() {
    let (result, components, date) = parse_into(4, b"a b-c.d/e:f_g,7,2021-03-02 18:00");
    assert_eq!(result, Ok(()));
    assert_eq!(components, names(&[("a b-c.d/e:f_g", 7)]));
    assert_eq!(date.as_deref(), Some("2021-03-02 18:00"));
}

#[test]
fn field_byte_classes() {
    for b in 0u8..=255 {
        let expected = b.is_ascii_alphanumeric() || b" -./:_".contains(&b);
        assert_eq!(is_allowed_in_field(b), expected, "byte {}", b);
    }
    assert!(!is_allowed_in_field(b','));
    assert!(!is_allowed_in_field(b'\n'));
}

#[test]
fn fields_beyond_the_maximum_are_dropped_but_checked() {
    let (result, components, date) = parse_into(4, b"sbat,1,2021030218,extra,more\ncompA,2,x,y");
    assert_eq!(result, Ok(()));
    assert_eq!(components, names(&[("sbat", 1), ("compA", 2)]));
    assert_eq!(date.as_deref(), Some("2021030218"));

    let (result, components, _) = parse_into(4, b"sbat,1,2021030218,ex\"tra");
    assert_eq!(result, Err(Error::SpecialChar(b'"')));
    assert!(components.is_empty());
}

#[test]
fn empty_fields_are_fields() {
    let (result, components, date) = parse_into(4, b",1,");
    assert_eq!(result, Ok(()));
    assert_eq!(components, names(&[("", 1)]));
    assert_eq!(date.as_deref(), Some(""));

    let (result, _, _) = parse_into(4, b"sbat,");
    assert_eq!(result, Err(Error::InvalidGeneration));
    let (result, _, _) = parse_into(4, b",");
    assert_eq!(result, Err(Error::InvalidGeneration));
}

#[test]
fn record_fields_by_index() {
    let record = Record::<3>::from_line(b"sbat,1,2021030218,extra").unwrap();
    assert_eq!(record.get_field(0), Some(ascii("sbat")));
    assert_eq!(record.get_field(1), Some(ascii("1")));
    assert_eq!(record.get_field(2), Some(ascii("2021030218")));
    assert_eq!(record.get_field(3), None);
    assert_eq!(record.get_field(usize::MAX), None);
    assert_eq!(record.get_field_as_generation(1), Ok(Some(Generation::new(1))));
    assert_eq!(record.get_field_as_generation(0), Err(Error::InvalidGeneration));
    assert_eq!(record.get_field_as_generation(3), Ok(None));

    let wide = Record::<6>::from_line(b"sbat,1,2021030218,extra").unwrap();
    assert_eq!(wide.get_field(3), Some(ascii("extra")));
    assert_eq!(wide.get_field(4), None);

    let short = Record::<2>::from_line(b"a,,c").unwrap();
    assert_eq!(short.get_field(0), Some(ascii("a")));
    assert_eq!(short.get_field(1), Some(ascii("")));
    assert_eq!(short.get_field(2), None);

    let none = Record::<0>::from_line(b"a,b").unwrap();
    assert_eq!(none.get_field(0), None);

    let empty = Record::<3>::from_line(b"").unwrap();
    assert_eq!(empty.get_field(0), Some(ascii("")));
    assert_eq!(empty.get_field(1), None);
}

#[test]
fn record_refuses_faulty_lines() {
    assert_eq!(Record::<3>::from_line(b"a,b\"").err(), Some(Error::SpecialChar(b'"')));
    assert_eq!(Record::<3>::from_line(b"a,\xc3\xa9").err(), Some(Error::InvalidAscii));
    assert_eq!(Record::<3>::from_line(b"a\nb").err(), Some(Error::SpecialChar(b'\n')));
    assert_eq!(Record::<1>::from_line(b"a,b,c\\").err(), Some(Error::SpecialChar(b'\\')));
}

#[test]
fn component_from_record() {
    let record = Record::<3>::from_line(b"compA,42,x").unwrap();
    assert_eq!(Component::from_record(&record), Ok(component("compA", 42)));
    let record = Record::<3>::from_line(b"compA").unwrap();
    assert_eq!(Component::from_record(&record), Err(Error::TooFewFields));
    let record = Record::<3>::from_line(b"compA,-1").unwrap();
    assert_eq!(Component::from_record(&record), Err(Error::InvalidGeneration));
    let record = Record::<1>::from_line(b"compA,1").unwrap();
    assert_eq!(Component::from_record(&record), Err(Error::TooFewFields));
}

#[test]
fn parser_hands_records_over_in_order() {
    let mut metadata = Metadata::new(BoundedVec::new(8));
    assert_eq!(parse_csv::<6, _>(b"a,1\nb,2,v\nc,3,4\n", &mut metadata), Ok(()));
    assert_eq!(
        metadata.entries(),
        [
            Entry::new(component("a", 1), Vendor::default()),
            Entry::new(
                component("b", 2),
                Vendor { name: Some(ascii("v")), ..Vendor::default() }
            ),
            Entry::new(
                component("c", 3),
                Vendor { name: Some(ascii("4")), ..Vendor::default() }
            ),
        ]
    );
}

#[test]
fn parser_itself_clears_nothing() {
    let mut revocations = Revocations::new(BoundedVec::new(8));
    assert_eq!(parse_csv::<3, _>(b"a,1,first", &mut revocations), Ok(()));
    assert_eq!(parse_csv::<3, _>(b"b,2\nc,3,third", &mut revocations), Ok(()));
    assert_eq!(
        revocations.revoked_components(),
        [component("a", 1), component("b", 2), component("c", 3)]
    );
    assert!(revocations.date().is_none());
    assert_eq!(parse_csv::<3, _>(b"", &mut revocations), Ok(()));
    assert_eq!(revocations.revoked_components().len(), 3);
}

#[test]
fn parser_stops_at_the_first_error() {
    let mut revocations = Revocations::new(BoundedVec::new(2));
    assert_eq!(
        parse_csv::<3, _>(b"a,1\nb,2\nc\"\n", &mut revocations),
        Err(Error::SpecialChar(b'"'))
    );
    assert_eq!(revocations.revoked_components().len(), 2);

    let mut revocations = Revocations::new(BoundedVec::new(2));
    assert_eq!(
        parse_csv::<3, _>(b"a,1\nb,2\nc,3\nd\"", &mut revocations),
        Err(Error::TooManyRecords)
    );
    assert_eq!(revocations.revoked_components(), [component("a", 1), component("b", 2)]);
}

#[test]
fn handler_takes_the_date_from_record_zero() {
    let mut revocations = Revocations::new(BoundedVec::new(4));
    let record = Record::<3>::from_line(b"a,1,2021030218").unwrap();
    assert_eq!(revocations.handle(1, record), Ok(()));
    assert!(revocations.date().is_none());
    assert_eq!(revocations.handle(0, record), Ok(()));
    assert_eq!(*revocations.date(), Some(ascii("2021030218")));
    let record = Record::<3>::from_line(b"b").unwrap();
    assert_eq!(revocations.handle(0, record), Err(Error::TooFewFields));
    assert!(revocations.date().is_none());
    assert_eq!(revocations.revoked_components(), [component("a", 1), component("a", 1)]);
}

#[test]
fn metadata_parse_reads_entries() {
    let mut metadata = Metadata::new(BoundedVec::new(4));
    let input = b"sbat,1,SBAT Version,sbat,1,https://github.com/rhboot/shim/blob/main/SBAT.md\nshim,2\ngrub.fedora,3,The Fedora Project,grub2";
    assert_eq!(metadata.parse(input), Ok(()));
    assert_eq!(
        metadata.entries(),
        [
            Entry::new(
                component("sbat", 1),
                Vendor {
                    name: Some(ascii("SBAT Version")),
                    package_name: Some(ascii("sbat")),
                    version: Some(ascii("1")),
                    url: Some(ascii("https://github.com/rhboot/shim/blob/main/SBAT.md")),
                }
            ),
            Entry::new(component("shim", 2), Vendor::default()),
            Entry::new(
                component("grub.fedora", 3),
                Vendor {
                    name: Some(ascii("The Fedora Project")),
                    package_name: Some(ascii("grub2")),
                    version: None,
                    url: None,
                }
            ),
        ]
    );
}

#[test]
fn metadata_parse_clears_and_reports_errors() {
    let mut storage = BoundedVec::new(2);
    storage.try_push(Entry::new(component("old", 1), Vendor::default())).unwrap();
    let mut metadata = Metadata::new(storage);
    assert_eq!(metadata.entries().len(), 1);

    assert_eq!(metadata.parse(b"a,1\nb,2\nc,3"), Err(Error::TooManyRecords));
    assert_eq!(
        metadata.entries(),
        [
            Entry::new(component("a", 1), Vendor::default()),
            Entry::new(component("b", 2), Vendor::default())
        ]
    );
    assert_eq!(metadata.parse(b"a"), Err(Error::TooFewFields));
    assert!(metadata.entries().is_empty());
    assert_eq!(metadata.parse(b"a,b"), Err(Error::InvalidGeneration));
    assert_eq!(metadata.parse(b"a,1,\xff"), Err(Error::InvalidAscii));
    assert_eq!(metadata.parse(b"a,1,v,p,1.0,u,x\"y"), Err(Error::SpecialChar(b'"')));
    assert_eq!(metadata.parse(b""), Ok(()));
    assert!(metadata.entries().is_empty());
}

#[test]
fn same_bytes_compares_content() {
    assert!(same_bytes(b"", b""));
    assert!(same_bytes(b"compA", b"compA"));
    assert!(!same_bytes(b"compA", b"compB"));
    assert!(!same_bytes(b"compA", b"compAA"));
    assert!(!same_bytes(b"compA", b"comp"));
    assert!(!same_bytes(b"compA", b"CompA"));
}

#[test]
fn ascii_text_accepts_ascii_only() {
    assert_eq!(AsciiText::from_ascii(b"\x00abc\x7f").map(|t| t.len()), Ok(5));
    assert_eq!(AsciiText::from_ascii(b"abc\x80").err(), Some(Error::InvalidAscii));
    assert_eq!(AsciiText::from_ascii("é".as_bytes()).err(), Some(Error::InvalidAscii));
    let text = ascii("hello world");
    assert_eq!(text.as_bytes(), b"hello world");
    assert_eq!(text.len(), 11);
    assert!(!text.is_empty());
    assert!(AsciiText::empty().is_empty());
    assert_eq!(text.slice(6, 11), ascii("world"));
    assert_eq!(text.slice(3, 3), ascii(""));
    assert!(text.same_as(&ascii("hello world")));
    assert!(!text.same_as(&ascii("hello")));
}

#[test]
fn bounded_storage_refuses_when_full() {
    let mut storage = BoundedVec::new(2);
    assert_eq!(storage.try_push(1u32), Ok(()));
    assert_eq!(storage.try_push(2u32), Ok(()));
    assert_eq!(storage.try_push(3u32), Err(Error::TooManyRecords));
    assert_eq!(storage.as_slice(), [1, 2]);
    assert_eq!(storage.len(), 2);
    storage.clear();
    assert!(storage.as_slice().is_empty());
    assert_eq!(storage.try_push(4u32), Ok(()));
    assert_eq!(storage.try_push(5u32), Ok(()));
    assert_eq!(storage.try_push(6u32), Err(Error::TooManyRecords));
    assert_eq!(storage.as_slice(), [4, 5]);
}
