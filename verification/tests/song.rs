use taiko::song::sorted_courses;
use taiko::{decode_chart, Song, TJACourse, TJAParser, TJA};

fn chart(text: &str) -> TJA {
    TJAParser::new().parse(text).unwrap()
}

#[test]
fn utf8_is_read_as_utf8() {
    assert_eq!(decode_chart(&"TITLE:太鼓".as_bytes().to_vec()), "TITLE:太鼓");
    assert_eq!(decode_chart(&b"BPM:120\n".to_vec()), "BPM:120\n");
    assert_eq!(decode_chart(&vec![]), "");
    // the mark at the start of a file is no part of its text
    assert_eq!(decode_chart(&b"\xEF\xBB\xBFBPM:120".to_vec()), "BPM:120");
}

#[test]
fn what_is_no_utf8_is_read_as_shift_jis() {
    // "太鼓" in Shift JIS
    let bytes = vec![b'T', b':', 0x91, 0xBE, 0x8C, 0xDB];
    assert_eq!(decode_chart(&bytes), "T:太鼓");
    // half-width katakana: one byte each
    assert_eq!(decode_chart(&vec![0xC0, 0xB2, 0xBA]), "ﾀｲｺ");
}

#[test]
fn a_song_is_made_ready_for_a_menu() {
    let tja = chart(
        "WAVE:a.ogg\nCOURSE:Oni\nLEVEL:9\n#END\nCOURSE:Easy\n#END\nCOURSE:3\nLEVEL:1\n#END\nCOURSE:Hard\n#END",
    );
    let song = Song::new(tja, "file");
    assert_eq!(song.tja().header.title.as_deref(), Some("file"));
    assert_eq!(song.tja().header.subtitle.as_deref(), Some(""));
    assert_eq!(song.wave().as_deref(), Some("a.ogg"));
    let courses: Vec<(i32, Option<i32>)> =
        song.tja().courses.iter().map(|c| (c.course, c.level)).collect();
    assert_eq!(courses, vec![(0, None), (2, None), (3, Some(9)), (3, Some(1))]);
}

#[test]
fn a_title_is_kept_and_an_empty_one_is_not() {
    let song = Song::new(chart("TITLE:Song\nSUBTITLE:--x\nWAVE:\n"), "file");
    assert_eq!(song.tja().header.title.as_deref(), Some("Song"));
    assert_eq!(song.tja().header.subtitle.as_deref(), Some("--x"));
    assert_eq!(song.wave(), None);
    let song = Song::new(chart("TITLE:\n"), "file");
    assert_eq!(song.tja().header.title.as_deref(), Some("file"));
    assert_eq!(song.wave(), None);
}

#[test]
fn courses_are_sorted_by_their_numbers() {
    let of = |course: i32, level: i32| TJACourse { level: Some(level), ..TJACourse::new(course) };
    let sorted = sorted_courses(vec![of(4, 0), of(1, 1), of(3, 2), of(1, 3), of(0, 4), of(3, 5)]);
    let seen: Vec<(i32, Option<i32>)> = sorted.iter().map(|c| (c.course, c.level)).collect();
    assert_eq!(
        seen,
        vec![
            (0, Some(4)),
            (1, Some(1)),
            (1, Some(3)),
            (3, Some(2)),
            (3, Some(5)),
            (4, Some(0))
        ]
    );
    assert!(sorted_courses(vec![]).is_empty());
}

#[test]
fn the_mark_of_the_music_is_its_digest() {
    let mut song = Song::new(chart(""), "file");
    assert_eq!(song.known_sha256(), None);
    assert_eq!(
        song.music_sha256(&b"abc".to_vec()),
        "ba7816bf8f01cfea414140de5dae2223b00361a396177a9cb410ff61f20015ad"
    );
    assert_eq!(
        song.known_sha256().as_deref(),
        Some("ba7816bf8f01cfea414140de5dae2223b00361a396177a9cb410ff61f20015ad")
    );
    // what is known is not made anew
    assert_eq!(
        song.music_sha256(&vec![]),
        "ba7816bf8f01cfea414140de5dae2223b00361a396177a9cb410ff61f20015ad"
    );
    assert_eq!(
        song.remember("fresh".to_owned()),
        "ba7816bf8f01cfea414140de5dae2223b00361a396177a9cb410ff61f20015ad"
    );
}

#[test]
fn the_digest_of_nothing() {
    let mut song = Song::new(chart(""), "file");
    assert_eq!(
        song.music_sha256(&vec![]),
        "e3b0c44298fc1c149afbf4c8996fb92427ae41e4649b934ca495991b7852b855"
    );
}

#[test]
fn a_fresh_mark_is_remembered() {
    let mut song = Song::new(chart(""), "file");
    assert_eq!(song.remember("one".to_owned()), "one");
    assert_eq!(song.remember("two".to_owned()), "one");
    assert_eq!(song.known_sha256().as_deref(), Some("one"));
}
