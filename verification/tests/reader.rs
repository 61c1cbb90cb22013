use sfhtml::reader::{read_lines, ReadError};

const TEXT: &str = "a\nb\nc\nd";

#[test]
fn read_whole_text() {
    let out = read_lines(TEXT, None, None, None, None).ok().unwrap();
    assert_eq!(out, "     1│a\n     2│b\n     3│c\n     4│d\n");
}

#[test]
fn read_head_and_tail() {
    assert_eq!(read_lines(TEXT, None, None, Some(2), None).ok().unwrap(), "     1│a\n     2│b\n");
    assert_eq!(read_lines(TEXT, None, None, None, Some(1)).ok().unwrap(), "     4│d\n");
    assert_eq!(read_lines(TEXT, None, None, None, Some(9)).ok().unwrap().lines().count(), 4);
    assert_eq!(read_lines(TEXT, None, None, None, Some(0)).ok().unwrap(), "");
}

#[test]
fn read_ranges() {
    assert_eq!(read_lines(TEXT, Some(2), Some(3), None, None).ok().unwrap(), "     2│b\n     3│c\n");
    assert_eq!(read_lines(TEXT, Some(3), None, None, None).ok().unwrap(), "     3│c\n     4│d\n");
    assert_eq!(read_lines(TEXT, Some(3), Some(99), None, None).ok().unwrap(), "     3│c\n     4│d\n");
    assert_eq!(read_lines(TEXT, Some(3), Some(1), None, None).ok().unwrap(), "");
}

#[test]
fn read_errors() {
    let e = read_lines(TEXT, Some(0), Some(2), None, None).err().unwrap();
    assert_eq!(e.message(), "Line numbers are 1-based. Use 1 for the first line.");
    let e = read_lines(TEXT, Some(0), None, None, None).err().unwrap();
    assert_eq!(e.message(), "Line numbers are 1-based.");
    let e = read_lines(TEXT, Some(9), Some(10), None, None).err().unwrap();
    assert!(matches!(e, ReadError::StartPastEnd { start: 9, total: 4 }));
    assert_eq!(e.message(), "Start line 9 exceeds file length (4 lines)");
}

#[test]
fn read_empty_text() {
    assert_eq!(read_lines("", Some(0), None, None, None).ok().unwrap(), "");
}
