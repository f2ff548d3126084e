use epwing::{Error, IndexLocation, Indices, IoError, Subbook};

fn entry(data: &mut Vec<u8>, i: usize, id: u8, start: u32, count: u32) {
    let at = 16 + i * 16;
    if data.len() < at + 16 {
        data.resize(at + 16, 0);
    }
    data[at] = id;
    data[at + 2..at + 6].copy_from_slice(&start.to_be_bytes());
    data[at + 6..at + 10].copy_from_slice(&count.to_be_bytes());
    data[at + 10] = 1;
}

fn header(n: u8) -> Vec<u8> {
    let mut data = vec![0u8; 16];
    data[1] = n;
    data[4] = 1;
    data
}

#[test]
fn two_sections_located() {
    let mut data = header(2);
    entry(&mut data, 0, 0x01, 5, 3);
    entry(&mut data, 1, 0x02, 10, 1);
    let ics = Indices::read_from(&data).unwrap();
    assert_eq!(
        ics,
        Indices {
            menu: Some(IndexLocation { page: 5, length: 3 }),
            copyright: Some(IndexLocation { page: 10, length: 1 }),
        }
    );
}

#[test]
fn parsing_twice_gives_same_indices() {
    let mut data = header(2);
    entry(&mut data, 0, 0x02, 7, 2);
    entry(&mut data, 1, 0x01, 9, 4);
    assert_eq!(Indices::read_from(&data), Indices::read_from(&data));
}

#[test]
fn unknown_id_changes_nothing() {
    let mut data = header(3);
    entry(&mut data, 0, 0x01, 5, 3);
    entry(&mut data, 1, 0x07, 99, 99);
    entry(&mut data, 2, 0x00, 42, 42);
    let ics = Indices::read_from(&data).unwrap();
    assert_eq!(ics.menu, Some(IndexLocation { page: 5, length: 3 }));
    assert_eq!(ics.copyright, None);
}

#[test]
fn later_entry_wins() {
    let mut data = header(3);
    entry(&mut data, 0, 0x01, 5, 3);
    entry(&mut data, 1, 0x02, 1, 1);
    entry(&mut data, 2, 0x01, 0x01020304, 0x0a0b0c0d);
    let ics = Indices::read_from(&data).unwrap();
    assert_eq!(ics.menu, Some(IndexLocation { page: 0x01020304, length: 0x0a0b0c0d }));
    assert_eq!(ics.copyright, Some(IndexLocation { page: 1, length: 1 }));
}

#[test]
fn no_entries() {
    let data = header(0);
    let ics = Indices::read_from(&data).unwrap();
    assert_eq!(ics, Indices { menu: None, copyright: None });
}

#[test]
fn short_header_fails() {
    let data = vec![0u8, 0, 0, 0];
    assert_eq!(Indices::read_from(&data), Err(Error::Io(IoError::UnexpectedEof)));
}

#[test]
fn truncated_entry_fails() {
    let mut data = header(1);
    entry(&mut data, 0, 0x01, 5, 3);
    data.truncate(16 + 10);
    assert_eq!(Indices::read_from(&data), Err(Error::Io(IoError::UnexpectedEof)));
    data.push(0);
    assert!(Indices::read_from(&data).is_ok());
}

#[test]
fn subbook_keeps_indices() {
    let mut data = header(1);
    entry(&mut data, 0, 0x02, 10, 1);
    let sb = Subbook::from_io(data).unwrap();
    assert_eq!(
        sb.indices(),
        Indices { menu: None, copyright: Some(IndexLocation { page: 10, length: 1 }) }
    );
}

#[test]
fn subbook_open_fails_on_short_container() {
    assert!(matches!(Subbook::from_io(vec![0u8, 3]), Err(Error::Io(IoError::UnexpectedEof))));
}
