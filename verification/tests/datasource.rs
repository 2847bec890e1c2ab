use lunisolar::ctype::{
    abs, isalnum, isalpha, isdigit, islower, isspace, isupper, labs, tolower, toupper,
};
use lunisolar::datasource::{contains_bytes, match_embedded_file, EmbeddedFile, FileTable};

static PLANETS: &[u8] = b"first line\nsecond\n\nlast";
static MOON: &[u8] = b"0123456789";

fn files() -> [EmbeddedFile; 2] {
    [
        EmbeddedFile { name: b"sepl_18.se1", data: PLANETS },
        EmbeddedFile { name: b"semo_18.se1", data: MOON },
    ]
}

#[test]
fn names_are_found_inside_paths() {
    assert!(contains_bytes(b"/ephe/sepl_18.se1", b"sepl_18.se1"));
    assert!(contains_bytes(b"abc", b""));
    assert!(contains_bytes(b"abc", b"abc"));
    assert!(contains_bytes(b"aab", b"ab"));
    assert!(!contains_bytes(b"abc", b"abcd"));
    assert!(!contains_bytes(b"sepl_18.se", b"sepl_18.se1"));
    assert_eq!(match_embedded_file(b"./ephe/semo_18.se1", &files()), Some(MOON));
    assert_eq!(match_embedded_file(b"sepl_18.se1.bak", &files()), Some(PLANETS));
    assert_eq!(match_embedded_file(b"seas_18.se1", &files()), None);
}

#[test]
fn files_open_in_the_first_free_slot() {
    let mut table = FileTable::new();
    assert_eq!(table.fopen(b"sepl_18.se1", &files()), 8);
    assert_eq!(table.fopen(b"semo_18.se1", &files()), 16);
    assert_eq!(table.fopen(b"unknown", &files()), 0);
    assert_eq!(table.close(8), 0);
    assert_eq!(table.fopen(b"semo_18.se1", &files()), 8);
    for expected in [24, 32, 40, 48, 56, 64] {
        assert_eq!(table.open(MOON), expected);
    }
    assert_eq!(table.open(MOON), 0);
    assert_eq!(table.tell(64), Some(0));
    assert_eq!(table.tell(72), None);
    assert_eq!(table.tell(0), None);
    assert_eq!(table.tell(7), None);
    assert_eq!(table.close(0), 0);
}

#[test]
fn reads_take_what_is_left() {
    let mut table = FileTable::new();
    let h = table.open(MOON);
    assert_eq!(table.read(h, 2, 3), (&b"012345"[..], 3));
    assert_eq!(table.tell(h), Some(6));
    assert_eq!(table.read(h, 3, 5), (&b"6789"[..], 1));
    assert_eq!(table.tell(h), Some(10));
    assert_eq!(table.read(h, 1, 1), (&b""[..], 0));
    assert_eq!(table.read(h, 0, 5), (&b""[..], 0));
    assert_eq!(table.read(h + 8, 1, 1), (&b""[..], 0));
    table.rewind(h);
    assert_eq!(table.read(h, usize::MAX, 2), (MOON, 0));
}

#[test]
fn seeks_move_from_start_position_and_end() {
    let mut table = FileTable::new();
    let h = table.open(MOON);
    assert_eq!(table.seek(h, 4, 0), 0);
    assert_eq!(table.tell(h), Some(4));
    assert_eq!(table.seek(h, -3, 1), 0);
    assert_eq!(table.tell(h), Some(1));
    assert_eq!(table.seek(h, -2, 2), 0);
    assert_eq!(table.read(h, 1, 10), (&b"89"[..], 2));
    assert_eq!(table.seek(h, 5, 2), 0);
    assert_eq!(table.tell(h), Some(15));
    assert_eq!(table.read(h, 1, 10), (&b""[..], 0));
    assert_eq!(table.seek(h, -16, 1), -1);
    assert_eq!(table.tell(h), Some(15));
    assert_eq!(table.seek(h, 0, 3), -1);
    assert_eq!(table.seek(h + 8, 0, 0), -1);
}

#[test]
fn lines_end_with_their_newline() {
    let mut table = FileTable::new();
    let h = table.open(PLANETS);
    assert_eq!(table.gets(h, 100), Some(&b"first line\n"[..]));
    assert_eq!(table.gets(h, 4), Some(&b"sec"[..]));
    assert_eq!(table.gets(h, 100), Some(&b"ond\n"[..]));
    assert_eq!(table.gets(h, 1), None);
    assert_eq!(table.gets(h, 0), None);
    assert_eq!(table.gets(h, 100), Some(&b"\n"[..]));
    assert_eq!(table.gets(h, 100), Some(&b"last"[..]));
    assert_eq!(table.gets(h, 100), None);
    assert_eq!(table.gets(h + 8, 100), None);
}

#[test]
fn characters_are_classed_by_their_low_byte() {
    assert_eq!(isdigit('7' as i32), 1);
    assert_eq!(isdigit('a' as i32), 0);
    assert_eq!(isdigit('7' as i32 + 256), 1);
    assert_eq!(isdigit('7' as i32 - 256), 1);
    assert_eq!(isspace(' ' as i32), 1);
    assert_eq!(isspace(11), 1);
    assert_eq!(isspace(0xA0), 1);
    assert_eq!(isspace('x' as i32), 0);
    assert_eq!(isalpha('x' as i32), 1);
    assert_eq!(isalpha('Q' as i32), 1);
    assert_eq!(isalpha('1' as i32), 0);
    assert_eq!(isalnum('1' as i32), 1);
    assert_eq!(isalnum('-' as i32), 0);
    assert_eq!(isupper('Q' as i32), 1);
    assert_eq!(isupper('q' as i32), 0);
    assert_eq!(islower('q' as i32), 1);
    assert_eq!(islower('Q' as i32), 0);
    assert_eq!(tolower('Q' as i32), 'q' as i32);
    assert_eq!(tolower('q' as i32), 'q' as i32);
    assert_eq!(toupper('q' as i32), 'Q' as i32);
    assert_eq!(toupper('1' as i32), '1' as i32);
    assert_eq!(abs(-5), 5);
    assert_eq!(abs(5), 5);
    assert_eq!(labs(-5_000_000_000), 5_000_000_000);
}
