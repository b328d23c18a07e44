use taiko::tja::number::{read_decimal, read_i32, read_u16};
use taiko::tja::text::chars_of;
use taiko::{
    parse_course, ParseError, TJAParser, TaikoNote, TaikoNoteType, TaikoNoteVariant, TJA,
};

fn parse(text: &str) -> Result<TJA, ParseError> {
    TJAParser::new().parse(text)
}

fn notes_of(text: &str) -> Vec<TaikoNote> {
    parse(text).unwrap().courses[0].notes.clone()
}

#[test]
fn measure_of_four_symbols_at_120_bpm() {
    let text = "BPM:120\nCOURSE:Oni\n#START\n1020,\n#END\n";
    let chart = parse(text).unwrap();
    assert_eq!(chart.header.bpm, Some(120_000));
    assert_eq!(chart.courses.len(), 1);
    let course = &chart.courses[0];
    assert_eq!(course.course, 3);
    let notes = &course.notes;
    assert_eq!(notes.len(), 3);
    assert_eq!(
        notes[0],
        TaikoNote {
            start: 0,
            duration: 0,
            volume: 0,
            variant: TaikoNoteVariant::Invisible,
            note_type: TaikoNoteType::BarLine,
            speed: 120_000,
        }
    );
    assert_eq!(
        notes[1],
        TaikoNote {
            start: 0,
            duration: 0,
            volume: 1,
            variant: TaikoNoteVariant::Don,
            note_type: TaikoNoteType::Small,
            speed: 120_000,
        }
    );
    assert_eq!(
        notes[2],
        TaikoNote {
            start: 1_000_000_000,
            duration: 0,
            volume: 1,
            variant: TaikoNoteVariant::Kat,
            note_type: TaikoNoteType::Small,
            speed: 120_000,
        }
    );
}

#[test]
fn a_measure_lasts_two_seconds_at_120_bpm() {
    let notes = notes_of("BPM:120\nCOURSE:0\n1020,\n1,\n#END");
    // the second bar line stands where the first measure ends
    assert_eq!(notes[3].note_type, TaikoNoteType::BarLine);
    assert_eq!(notes[3].start, 2_000_000_000);
    assert_eq!(notes[4].start, 2_000_000_000);
}

#[test]
fn header_fields_are_read() {
    let text = "TITLE: Song \nSUBTITLE:--sub\nBPM:174.5\nWAVE:song.ogg\nOFFSET:-1.25\n\
                DEMOSTART:30\nSONGVOL:80\nSEVOL:+90\nSTYLE:Single\nGENRE:J-POP\nARTIST:someone\n\
                UNKNOWN:x\n";
    let chart = parse(text).unwrap();
    let h = &chart.header;
    assert_eq!(h.title.as_deref(), Some("Song"));
    assert_eq!(h.subtitle.as_deref(), Some("--sub"));
    assert_eq!(h.bpm, Some(174_500));
    assert_eq!(h.wave.as_deref(), Some("song.ogg"));
    assert_eq!(h.offset, Some(-1_250_000_000));
    assert_eq!(h.demostart, Some(30_000_000_000));
    assert_eq!(h.songvol, Some(80));
    assert_eq!(h.sevol, Some(90));
    assert_eq!(h.style.as_deref(), Some("Single"));
    assert_eq!(h.genre.as_deref(), Some("J-POP"));
    assert_eq!(h.artist.as_deref(), Some("someone"));
    assert!(chart.courses.is_empty());
}

#[test]
fn text_that_is_not_ascii_is_kept() {
    let chart = parse("TITLE:\u{3000}太鼓の達人 \n").unwrap();
    assert_eq!(chart.header.title.as_deref(), Some("太鼓の達人"));
}

#[test]
fn an_empty_text_is_an_empty_chart() {
    let chart = parse("").unwrap();
    assert_eq!(chart.header.title, None);
    assert_eq!(chart.header.bpm, None);
    assert!(chart.courses.is_empty());
}

#[test]
fn unparsable_optional_fields_are_unset() {
    let chart = parse("BPM:fast\nSONGVOL:1e2\nOFFSET:.\n").unwrap();
    assert_eq!(chart.header.bpm, None);
    assert_eq!(chart.header.songvol, None);
    assert_eq!(chart.header.offset, None);
}

#[test]
fn comments_and_blank_lines_are_passed_over() {
    let notes = notes_of("BPM:60 // slow\n\n  // nothing\nCOURSE:Easy\n\n 1, // one\r\n#END\n");
    assert_eq!(notes.len(), 2);
    assert_eq!(notes[1].variant, TaikoNoteVariant::Don);
    assert_eq!(notes[1].speed, 60_000);
}

#[test]
fn symbols_map_to_notes() {
    let notes = notes_of("BPM:240\nCOURSE:Hard\n12345678,\n#END");
    // one second per measure, eight symbols
    let kinds: Vec<(TaikoNoteVariant, TaikoNoteType, i64, i64, u16)> = notes
        .iter()
        .map(|n| (n.variant, n.note_type, n.start, n.duration, n.volume))
        .collect();
    assert_eq!(
        kinds,
        vec![
            (TaikoNoteVariant::Invisible, TaikoNoteType::BarLine, 0, 0, 0),
            (TaikoNoteVariant::Don, TaikoNoteType::Small, 0, 0, 1),
            (TaikoNoteVariant::Kat, TaikoNoteType::Small, 125_000_000, 0, 1),
            (TaikoNoteVariant::Don, TaikoNoteType::Big, 250_000_000, 0, 1),
            (TaikoNoteVariant::Kat, TaikoNoteType::Big, 375_000_000, 0, 1),
            // the balloon of the seventh symbol replaced the rolls before it
            (
                TaikoNoteVariant::Both,
                TaikoNoteType::Balloon,
                750_000_000,
                125_000_000,
                5
            ),
        ]
    );
}

#[test]
fn a_roll_lasts_until_it_is_closed() {
    let notes = notes_of("BPM:240\nCOURSE:Hard\n5000,\n0800,\n#END");
    let roll = notes
        .iter()
        .find(|n| n.variant == TaikoNoteVariant::Both)
        .unwrap();
    assert_eq!(roll.note_type, TaikoNoteType::SmallCombo);
    assert_eq!(roll.start, 0);
    assert_eq!(roll.duration, 1_250_000_000);
    assert_eq!(roll.volume, u16::MAX);
}

#[test]
fn balloons_take_their_counts_in_order() {
    let notes = notes_of("BPM:240\nCOURSE:Oni\nBALLOON:7,x,9\n7080,\n7080,\n9080,\n7080,\n#END");
    let volumes: Vec<(TaikoNoteType, u16)> = notes
        .iter()
        .filter(|n| n.variant == TaikoNoteVariant::Both)
        .map(|n| (n.note_type, n.volume))
        .collect();
    assert_eq!(
        volumes,
        vec![
            (TaikoNoteType::Balloon, 7),
            (TaikoNoteType::Balloon, 0),
            (TaikoNoteType::Yam, 9),
            (TaikoNoteType::Balloon, 5),
        ]
    );
}

#[test]
fn an_empty_measure_is_one_rest() {
    let notes = notes_of("BPM:120\nCOURSE:0\n,\n1,\n#END");
    assert_eq!(notes.len(), 3);
    assert_eq!(notes[0].note_type, TaikoNoteType::BarLine);
    assert_eq!(notes[1].note_type, TaikoNoteType::BarLine);
    assert_eq!(notes[1].start, 2_000_000_000);
    assert_eq!(notes[2].start, 2_000_000_000);
}

#[test]
fn a_tempo_change_within_a_measure_touches_later_symbols_only() {
    // four symbols in the measure: two at 120, two at 240
    let notes = notes_of("BPM:120\nCOURSE:0\n11\n#BPMCHANGE 240\n11,\n1,\n#END");
    let starts: Vec<i64> = notes
        .iter()
        .filter(|n| n.variant == TaikoNoteVariant::Don)
        .map(|n| n.start)
        .collect();
    assert_eq!(
        starts,
        vec![0, 500_000_000, 1_000_000_000, 1_250_000_000, 1_500_000_000]
    );
    assert_eq!(notes[1].speed, 120_000);
    assert_eq!(notes[3].speed, 240_000);
}

#[test]
fn commands_change_the_state() {
    let notes = notes_of(
        "BPM:120\nCOURSE:0\n#MEASURE 3/4\n#SCROLL 1.5\n#DELAY 0.25\n#GOGOSTART\n111,\n#GOGOEND\n#END",
    );
    assert_eq!(notes[0].note_type, TaikoNoteType::GogoStart);
    assert_eq!(notes[0].start, 250_000_000);
    assert_eq!(notes[0].volume, 1);
    assert_eq!(notes[0].speed, 180_000);
    assert_eq!(notes[1].note_type, TaikoNoteType::BarLine);
    assert_eq!(notes[1].speed, 180_000);
    let starts: Vec<i64> = notes[2..5].iter().map(|n| n.start).collect();
    assert_eq!(starts, vec![250_000_000, 750_000_000, 1_250_000_000]);
    assert_eq!(notes[5].note_type, TaikoNoteType::GogoEnd);
    assert_eq!(notes[5].start, 1_750_000_000);
}

#[test]
fn durations_are_cut_to_whole_nanoseconds() {
    // three symbols in two seconds: 666 666 666 ns each
    let notes = notes_of("BPM:120\nCOURSE:0\n111,\n#END");
    assert_eq!(notes[2].start, 666_666_666);
    assert_eq!(notes[3].start, 1_333_333_332);
}

#[test]
fn course_fields_are_read() {
    let chart = parse("COURSE:Edit\nLEVEL:8\nSCOREINIT:450\nSCOREDIFF:110\n#END\nCOURSE:2\n#END")
        .unwrap();
    assert_eq!(chart.courses.len(), 2);
    assert_eq!(chart.courses[0].course, 4);
    assert_eq!(chart.courses[0].level, Some(8));
    assert_eq!(chart.courses[0].scoreinit, Some(450));
    assert_eq!(chart.courses[0].scorediff, Some(110));
    assert_eq!(chart.courses[1].course, 2);
    assert_eq!(chart.courses[1].level, None);
}

#[test]
fn each_course_starts_at_the_tempo_of_the_header() {
    let chart = parse("BPM:100\nCOURSE:0\n#BPMCHANGE 200\n1,\n#END\nCOURSE:1\n1,\n#END").unwrap();
    assert_eq!(chart.courses[0].notes[1].speed, 200_000);
    assert_eq!(chart.courses[1].notes[1].speed, 100_000);
}

#[test]
fn a_command_without_its_argument_is_an_error() {
    assert_eq!(
        parse("COURSE:0\n#BPMCHANGE\n#END"),
        Err(ParseError::MissingArgument)
    );
    assert_eq!(
        parse("COURSE:0\n#MEASURE \n#END"),
        Err(ParseError::MissingArgument)
    );
    assert_eq!(
        parse("COURSE:0\n#SCROLL\n#END"),
        Err(ParseError::MissingArgument)
    );
    assert_eq!(
        parse("COURSE:0\n#DELAY\n#END"),
        Err(ParseError::MissingArgument)
    );
}

#[test]
fn a_measure_without_a_slash_is_an_error() {
    assert_eq!(
        parse("COURSE:0\n#MEASURE 4\n#END"),
        Err(ParseError::MalformedMeasure)
    );
}

#[test]
fn a_measure_under_no_tempo_is_an_error() {
    assert_eq!(
        parse("BPM:0\nCOURSE:0\n1,\n#END"),
        Err(ParseError::InvalidTiming)
    );
    assert_eq!(
        parse("COURSE:0\n#MEASURE 4/0\n1,\n#END"),
        Err(ParseError::InvalidTiming)
    );
    assert_eq!(
        parse("COURSE:0\n#BPMCHANGE x\n1,\n#END"),
        Err(ParseError::InvalidTiming)
    );
}

#[test]
fn a_note_out_of_the_range_of_times_is_an_error() {
    assert_eq!(
        parse("BPM:0.001\nCOURSE:0\n#MEASURE 2000000000/1\n11,\n#END"),
        Err(ParseError::TimeOutOfRange)
    );
    assert_eq!(
        parse("COURSE:0\n#DELAY 1000000000\n#DELAY 1000000000\n#DELAY 1\n#END"),
        Err(ParseError::TimeOutOfRange)
    );
}

#[test]
fn a_course_that_is_not_closed_is_an_error() {
    assert_eq!(
        parse("BPM:120\nCOURSE:Oni\n1,\n"),
        Err(ParseError::UnterminatedCourse)
    );
}

#[test]
fn errors_have_words() {
    assert_eq!(
        ParseError::UnterminatedCourse.message(),
        "the text ends within a course"
    );
    assert_ne!(
        ParseError::MissingArgument.message(),
        ParseError::MalformedMeasure.message()
    );
}

#[test]
fn a_negative_tempo_runs_backwards() {
    let notes = notes_of("BPM:-120\nCOURSE:0\n11,\n#END");
    assert_eq!(notes[1].start, 0);
    assert_eq!(notes[2].start, -1_000_000_000);
    assert_eq!(notes[2].speed, -120_000);
}

#[test]
fn course_names_and_numbers() {
    assert_eq!(parse_course("easy"), 0);
    assert_eq!(parse_course("Normal"), 1);
    assert_eq!(parse_course("HARD"), 2);
    assert_eq!(parse_course("Oni"), 3);
    assert_eq!(parse_course("eDiT"), 4);
    assert_eq!(parse_course("3"), 3);
    assert_eq!(parse_course("-2"), -2);
    assert_eq!(parse_course("ura"), 0);
    assert_eq!(parse_course(""), 0);
}

#[test]
fn whole_numbers() {
    assert_eq!(read_i32(&chars_of("0")), Some(0));
    assert_eq!(read_i32(&chars_of("+17")), Some(17));
    assert_eq!(read_i32(&chars_of("-17")), Some(-17));
    assert_eq!(read_i32(&chars_of("2147483647")), Some(i32::MAX));
    assert_eq!(read_i32(&chars_of("-2147483648")), Some(i32::MIN));
    assert_eq!(read_i32(&chars_of("2147483648")), None);
    assert_eq!(read_i32(&chars_of("0000000000000000000000000000012")), Some(12));
    assert_eq!(read_i32(&chars_of("99999999999999999999999999999999")), None);
    assert_eq!(read_i32(&chars_of("")), None);
    assert_eq!(read_i32(&chars_of("-")), None);
    assert_eq!(read_i32(&chars_of("1 ")), None);
    assert_eq!(read_i32(&chars_of("1.0")), None);
    assert_eq!(read_u16(&chars_of("65535")), Some(u16::MAX));
    assert_eq!(read_u16(&chars_of("65536")), None);
    assert_eq!(read_u16(&chars_of("+5")), Some(5));
    assert_eq!(read_u16(&chars_of("-5")), None);
}

#[test]
fn decimals_are_fixed_point() {
    let limit = 1_000_000_000;
    assert_eq!(read_decimal(&chars_of("120"), 3, limit), Some(120_000));
    assert_eq!(read_decimal(&chars_of("120.5"), 3, limit), Some(120_500));
    assert_eq!(read_decimal(&chars_of("-0.75"), 3, limit), Some(-750));
    assert_eq!(read_decimal(&chars_of("+1.2345"), 3, limit), Some(1_234));
    assert_eq!(read_decimal(&chars_of(".5"), 3, limit), Some(500));
    assert_eq!(read_decimal(&chars_of("5."), 3, limit), Some(5_000));
    assert_eq!(read_decimal(&chars_of("1000000"), 3, limit), Some(limit));
    assert_eq!(read_decimal(&chars_of("1000000.001"), 3, limit), None);
    assert_eq!(read_decimal(&chars_of("."), 3, limit), None);
    assert_eq!(read_decimal(&chars_of(""), 3, limit), None);
    assert_eq!(read_decimal(&chars_of("1e3"), 3, limit), None);
    assert_eq!(read_decimal(&chars_of("1.2.3"), 3, limit), None);
    assert_eq!(read_decimal(&chars_of("0.000000001"), 9, limit), Some(1));
    assert_eq!(read_decimal(&chars_of("7"), 0, limit), Some(7));
}
