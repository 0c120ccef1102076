use building_blocks::path::{
    does_contain_invalid_characters, is_invalid_byte, Path, SemanticStringError, FILENAME_LENGTH,
    PATH_LENGTH, PATH_SEPARATOR,
};

fn entries_of(path: &[u8]) -> Vec<Vec<u8>> {
    Path::new(path).unwrap().entries()
}

fn normalized(path: &[u8]) -> Vec<u8> {
    Path::new_normalized(path).unwrap().as_bytes().to_vec()
}

#[test]
fn path_with_valid_content_is_created() {
    let sut = Path::new(b"some/path/../bla/some_file.txt").unwrap();
    assert_eq!(sut.as_bytes(), b"some/path/../bla/some_file.txt");
    assert_eq!(sut.len(), 30);
    assert!(!sut.is_empty());
}

#[test]
fn path_with_zero_byte_is_refused() {
    let sut = Path::new(b"/contains/illegal/\0/zero");
    assert_eq!(sut, Err(SemanticStringError::InvalidContent));
}

#[test]
fn path_with_invalid_character_is_refused() {
    for byte in [0u8, 1, 17, 31, b'<', b'>', b'"', b'|', b'?', b'*'] {
        assert!(is_invalid_byte(byte));
        let mut content = b"a/b".to_vec();
        content.push(byte);
        content.push(b'c');
        assert!(does_contain_invalid_characters(&content));
        assert_eq!(Path::new(&content), Err(SemanticStringError::InvalidContent));
    }
}

#[test]
fn other_characters_are_accepted() {
    for byte in [32u8, b'/', b'.', b'a', b'Z', b'0', b':', b'\\', b'~', 127, 128, 255] {
        assert!(!is_invalid_byte(byte));
        assert!(Path::new(&[b'x', byte]).is_ok());
    }
    assert!(!does_contain_invalid_characters(b""));
}

#[test]
fn path_of_maximum_length_is_accepted_and_a_longer_one_refused() {
    assert_eq!(PATH_LENGTH, 255);
    assert_eq!(FILENAME_LENGTH, 255);
    let longest = vec![b'a'; PATH_LENGTH];
    assert_eq!(Path::new(&longest).unwrap().len(), PATH_LENGTH);
    let too_long = vec![b'a'; PATH_LENGTH + 1];
    assert_eq!(Path::new(&too_long), Err(SemanticStringError::ExceedsMaximumLength));
}

#[test]
fn too_long_path_is_refused_before_its_content_is() {
    let mut too_long = vec![b'a'; PATH_LENGTH + 1];
    too_long[3] = 0;
    assert_eq!(Path::new(&too_long), Err(SemanticStringError::ExceedsMaximumLength));
    assert_eq!(Path::new_normalized(&too_long), Err(SemanticStringError::ExceedsMaximumLength));
}

#[test]
fn empty_path_is_empty() {
    let sut = Path::new_empty();
    assert!(sut.is_empty());
    assert_eq!(sut.len(), 0);
    assert_eq!(sut.as_bytes(), b"");
    assert!(!sut.is_absolute());
    assert_eq!(sut, Path::new(b"").unwrap());
}

#[test]
fn root_path_is_the_separator() {
    let sut = Path::new_root_path();
    assert_eq!(PATH_SEPARATOR, b'/');
    assert_eq!(sut.as_bytes(), b"/");
    assert!(sut.is_absolute());
    assert!(sut.entries().is_empty());
}

#[test]
fn path_is_absolute_when_it_starts_with_the_separator() {
    assert!(Path::new(b"/").unwrap().is_absolute());
    assert!(Path::new(b"/tmp/file").unwrap().is_absolute());
    assert!(Path::new(b"//tmp").unwrap().is_absolute());
    assert!(!Path::new(b"tmp/file").unwrap().is_absolute());
    assert!(!Path::new(b"./tmp").unwrap().is_absolute());
    assert!(!Path::new(b" /tmp").unwrap().is_absolute());
    assert!(!Path::new(b"").unwrap().is_absolute());
}

#[test]
fn normalize_removes_repeated_separators() {
    assert_eq!(normalized(b"/some//path///to////file"), b"/some/path/to/file");
    assert_eq!(normalized(b"some/path"), b"some/path");
    assert_eq!(normalized(b"//a"), b"/a");
    assert_eq!(normalized(b""), b"");
}

#[test]
fn normalize_removes_the_separator_at_the_end() {
    assert_eq!(normalized(b"/tmp/"), b"/tmp");
    assert_eq!(normalized(b"tmp/"), b"tmp");
    assert_eq!(normalized(b"/"), b"");
}

#[test]
fn normalize_takes_one_byte_from_separators_at_the_end() {
    assert_eq!(normalized(b"a//"), b"a/");
    assert_eq!(normalized(b"a///"), b"a/");
    assert_eq!(normalized(b"//"), b"/");
    assert_eq!(normalized(b"/a//b//"), b"/a/b/");
}

#[test]
fn normalize_of_a_path_equals_new_normalized() {
    for content in [&b"/a//b/"[..], b"a", b"", b"///", b"a/b/c"] {
        let sut = Path::new(content).unwrap();
        assert_eq!(sut.normalize(), Path::new_normalized(content).unwrap());
    }
}

#[test]
fn new_normalized_refuses_invalid_content() {
    assert_eq!(Path::new_normalized(b"a//b*"), Err(SemanticStringError::InvalidContent));
}

#[test]
fn entries_are_what_stands_between_the_separators() {
    assert_eq!(
        entries_of(b"/some/path/to/file.txt"),
        vec![b"some".to_vec(), b"path".to_vec(), b"to".to_vec(), b"file.txt".to_vec()]
    );
    assert_eq!(entries_of(b"relative/path"), vec![b"relative".to_vec(), b"path".to_vec()]);
    assert_eq!(entries_of(b"single"), vec![b"single".to_vec()]);
}

#[test]
fn entries_skip_what_is_empty() {
    assert_eq!(entries_of(b"//a///b//"), vec![b"a".to_vec(), b"b".to_vec()]);
    assert_eq!(entries_of(b"a/"), vec![b"a".to_vec()]);
    assert_eq!(entries_of(b""), Vec::<Vec<u8>>::new());
    assert_eq!(entries_of(b"/"), Vec::<Vec<u8>>::new());
    assert_eq!(entries_of(b"///"), Vec::<Vec<u8>>::new());
    assert_eq!(entries_of(b"../."), vec![b"..".to_vec(), b".".to_vec()]);
}

#[test]
fn add_path_entry_adds_a_separator_where_one_is_missing() {
    let mut sut = Path::new(b"/tmp").unwrap();
    assert_eq!(sut.add_path_entry(b"dir"), Ok(()));
    assert_eq!(sut.as_bytes(), b"/tmp/dir");
    assert_eq!(sut.add_path_entry(b"file.txt"), Ok(()));
    assert_eq!(sut.as_bytes(), b"/tmp/dir/file.txt");
}

#[test]
fn add_path_entry_adds_no_separator_to_an_empty_path_or_behind_one() {
    let mut sut = Path::new_empty();
    assert_eq!(sut.add_path_entry(b"dir"), Ok(()));
    assert_eq!(sut.as_bytes(), b"dir");

    let mut sut = Path::new_root_path();
    assert_eq!(sut.add_path_entry(b"dir"), Ok(()));
    assert_eq!(sut.as_bytes(), b"/dir");

    let mut sut = Path::new(b"a/").unwrap();
    assert_eq!(sut.add_path_entry(b""), Ok(()));
    assert_eq!(sut.as_bytes(), b"a/");
}

#[test]
fn add_path_entry_with_invalid_content_keeps_the_separator() {
    let mut sut = Path::new(b"/tmp").unwrap();
    assert_eq!(sut.add_path_entry(b"di?r"), Err(SemanticStringError::InvalidContent));
    assert_eq!(sut.as_bytes(), b"/tmp/");
}

#[test]
fn add_path_entry_that_does_not_fit_keeps_the_separator() {
    let mut sut = Path::new(&vec![b'a'; 250]).unwrap();
    assert_eq!(sut.add_path_entry(b"12345"), Err(SemanticStringError::ExceedsMaximumLength));
    assert_eq!(sut.len(), 251);
    assert_eq!(sut.as_bytes()[250], b'/');
    assert_eq!(sut.add_path_entry(b"1234"), Ok(()));
    assert_eq!(sut.len(), 255);
}

#[test]
fn add_path_entry_to_a_full_path_changes_nothing() {
    let mut sut = Path::new(&vec![b'a'; 255]).unwrap();
    assert_eq!(sut.add_path_entry(b""), Err(SemanticStringError::ExceedsMaximumLength));
    assert_eq!(sut.as_bytes(), &vec![b'a'; 255][..]);
}

#[test]
fn push_and_push_bytes_check_the_result() {
    let mut sut = Path::new(b"ab").unwrap();
    assert_eq!(sut.push(b'c'), Ok(()));
    assert_eq!(sut.push(b'|'), Err(SemanticStringError::InvalidContent));
    assert_eq!(sut.push_bytes(b"/de"), Ok(()));
    assert_eq!(sut.push_bytes(b"x\x07"), Err(SemanticStringError::InvalidContent));
    assert_eq!(sut.as_bytes(), b"abc/de");
    assert_eq!(
        sut.push_bytes(&vec![b'z'; 250]),
        Err(SemanticStringError::ExceedsMaximumLength)
    );
    assert_eq!(sut.push_bytes(&vec![b'z'; 249]), Ok(()));
    assert_eq!(sut.push(b'z'), Err(SemanticStringError::ExceedsMaximumLength));
    assert_eq!(sut.len(), 255);
}
