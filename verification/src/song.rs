//! Songs as a player picks them: the text of a chart file, the chart made
//! ready for a menu, and the mark by which the music of a song is known.

use crate::tja::chart::{course_views, text_view, ChartView, CourseView, HeaderView, TJACourse, TJA};
use sha2::{Digest, Sha256};
use vstd::prelude::*;
use vstd::utf8::valid_utf8;

verus! {

/// The text that `Encoding::decode` of encoding_rs makes of bytes, as
/// Shift JIS or as UTF-8.
pub uninterp spec fn decoded_text(shift_jis: bool, bytes: Seq<u8>) -> Seq<char>;

/// The SHA-256 digest of bytes, written in small hexadecimal digits.
pub uninterp spec fn sha256_hex(bytes: Seq<u8>) -> Seq<char>;

/// Whether `Encoding::decode_without_bom_handling` of encoding_rs, on
/// `UTF_8`, finds a malformed sequence in the bytes. The contract claims
/// that it finds one exactly where the bytes are no valid UTF-8. Bytes so
/// many that three times their number is no size of a buffer are left out.
#[verifier::external_body]
fn utf8_malformed(bytes: &Vec<u8>) -> (r: bool)
    requires
        bytes@.len() < usize::MAX / 8,
    ensures
        r == !valid_utf8(bytes@),
{
    encoding_rs::UTF_8.decode_without_bom_handling(bytes).1
}

/// The text that `Encoding::decode` of encoding_rs makes of the bytes, on
/// `SHIFT_JIS` or on `UTF_8`. The contract gives the text its name. Bytes
/// so many that three times their number is no size of a buffer are left
/// out.
#[verifier::external_body]
fn decode_as(shift_jis: bool, bytes: &Vec<u8>) -> (r: String)
    requires
        bytes@.len() < usize::MAX / 8,
    ensures
        r@ == decoded_text(shift_jis, bytes@),
{
    let encoding = if shift_jis {
        encoding_rs::SHIFT_JIS
    } else {
        encoding_rs::UTF_8
    };
    encoding.decode(bytes).0.into_owned()
}

/// The digest that `Sha256::digest` of sha2 makes of the bytes, formatted
/// in small hexadecimal digits. The contract gives the text its name.
#[verifier::external_body]
fn digest_hex(bytes: &Vec<u8>) -> (r: String)
    ensures
        r@ == sha256_hex(bytes@),
{
    format!("{:x}", Sha256::digest(bytes))
}

/// The text of a chart file: the bytes read as UTF-8 where they are valid
/// UTF-8, else as Shift JIS.
pub fn decode_chart(bytes: &Vec<u8>) -> (r: String)
    requires
        bytes@.len() < usize::MAX / 8,
    ensures
        r@ == decoded_text(!valid_utf8(bytes@), bytes@),
{
    let shift_jis: bool = utf8_malformed(bytes);
    decode_as(shift_jis, bytes)
}

/// `s` with `c` put behind the last course whose number is no greater.
pub open spec fn course_insert(s: Seq<CourseView>, c: CourseView) -> Seq<CourseView>
    decreases s.len(),
{
    if s.len() == 0 || s.last().course <= c.course {
        s.push(c)
    } else {
        course_insert(s.drop_last(), c).push(s.last())
    }
}

/// The courses by their numbers; courses of one number keep their order.
pub open spec fn by_course(s: Seq<CourseView>) -> Seq<CourseView>
    decreases s.len(),
{
    if s.len() == 0 {
        s
    } else {
        course_insert(by_course(s.drop_last()), s.last())
    }
}

/// No course has a greater number than one behind it.
pub open spec fn courses_sorted(s: Seq<CourseView>) -> bool {
    forall|i: int, j: int| 0 <= i < j < s.len() ==> s[i].course <= s[j].course
}

/// The title of a song in a menu: that of the chart, or the name of its
/// file where the chart has none or an empty one.
pub open spec fn menu_title(title: Option<Seq<char>>, stem: Seq<char>) -> Seq<char> {
    match title {
        Some(t) => if t.len() == 0 {
            stem
        } else {
            t
        },
        None => stem,
    }
}

/// The chart as a menu shows it: with a title, with a subtitle, which is
/// empty where the chart has none, and with the courses by their numbers.
pub open spec fn settled(chart: ChartView, stem: Seq<char>) -> ChartView {
    ChartView {
        header: HeaderView {
            title: Some(menu_title(chart.header.title, stem)),
            subtitle: Some(
                match chart.header.subtitle {
                    Some(s) => s,
                    None => Seq::empty(),
                },
            ),
            ..chart.header
        },
        courses: by_course(chart.courses),
    }
}

/// The name of the music file that a chart asks for, if it asks for one.
pub open spec fn wanted_wave(header: HeaderView) -> Option<Seq<char>> {
    match header.wave {
        Some(w) => if w.len() == 0 {
            None
        } else {
            Some(w)
        },
        None => None,
    }
}

/// The mark of the music: the one that is known, else the fresh one.
pub open spec fn known_or(known: Option<Seq<char>>, fresh: Seq<char>) -> Seq<char> {
    match known {
        Some(k) => k,
        None => fresh,
    }
}

/// Sorting courses gives sorted courses, each as often as before.
pub proof fn lemma_by_course(s: Seq<CourseView>)
    ensures
        courses_sorted(by_course(s)),
        by_course(s).len() == s.len(),
        by_course(s).to_multiset() == s.to_multiset(),
    decreases s.len(),
{
    broadcast use vstd::seq_lib::to_multiset_build;

    if s.len() > 0 {
        lemma_by_course(s.drop_last());
        lemma_course_insert(by_course(s.drop_last()), s.last());
        assert(s == s.drop_last().push(s.last()));
    }
}

proof fn lemma_course_insert(s: Seq<CourseView>, c: CourseView)
    requires
        courses_sorted(s),
    ensures
        courses_sorted(course_insert(s, c)),
        course_insert(s, c).len() == s.len() + 1,
        course_insert(s, c).to_multiset() == s.to_multiset().insert(c),
        forall|i: int|
            0 <= i < course_insert(s, c).len() ==> (#[trigger] course_insert(s, c)[i]).course
                <= c.course || (s.len() > 0 && course_insert(s, c)[i].course <= s.last().course),
    decreases s.len(),
{
    broadcast use vstd::seq_lib::to_multiset_build;

    if s.len() == 0 || s.last().course <= c.course {
        let r = s.push(c);
        assert forall|i: int, j: int| 0 <= i < j < r.len() implies r[i].course
            <= r[j].course by {
            if j == s.len() && i < s.len() - 1 {
                assert(s[i].course <= s[s.len() - 1].course);
            }
        }
        assert forall|i: int| 0 <= i < r.len() implies (#[trigger] r[i]).course <= c.course || (
        s.len() > 0 && r[i].course <= s.last().course) by {
            if i < s.len() - 1 {
                assert(s[i].course <= s[s.len() - 1].course);
            }
        }
    } else {
        let head = s.drop_last();
        lemma_course_insert(head, c);
        let mid = course_insert(head, c);
        let r = mid.push(s.last());
        assert(s == head.push(s.last()));
        assert forall|i: int| 0 <= i < mid.len() implies (#[trigger] mid[i]).course
            <= s.last().course by {
            if head.len() > 0 {
                assert(head.last() == s[s.len() - 2]);
                assert(s[s.len() - 2].course <= s[s.len() - 1].course);
            }
        }
        assert forall|i: int, j: int| 0 <= i < j < r.len() implies r[i].course
            <= r[j].course by {
            if j == mid.len() {
                assert(mid[i].course <= s.last().course);
            } else {
                assert(mid[i].course <= mid[j].course);
            }
        }
        assert(r.to_multiset() == s.to_multiset().insert(c));
    }
}

/// The courses by their numbers.
pub fn sorted_courses(courses: Vec<TJACourse>) -> (r: Vec<TJACourse>)
    ensures
        course_views(r@) == by_course(course_views(courses@)),
{
    let ghost all = course_views(courses@);
    let mut from = courses;
    let mut r: Vec<TJACourse> = Vec::new();
    let ghost mut done: int = 0;
    proof {
        assert(all.subrange(0, 0) =~= Seq::empty());
        assert(course_views(r@) =~= Seq::empty());
        assert(all.subrange(0, all.len() as int) == all);
    }
    while from.len() > 0
        invariant
            0 <= done <= all.len(),
            course_views(from@) == all.subrange(done, all.len() as int),
            course_views(r@) == by_course(all.subrange(0, done)),
        decreases from.len(),
    {
        let ghost coming = from@;
        let course = from.remove(0);
        let ghost before = course_views(r@);
        let mut j: usize = r.len();
        proof {
            assert(course_views(coming).len() == all.len() - done);
            assert(course_views(coming)[0] == all[done]);
            assert(course@ == all[done]);
            assert(from@ == coming.remove(0));
            assert forall|k: int| 0 <= k < from@.len() implies #[trigger] course_views(from@)[k]
                == all.subrange(done + 1, all.len() as int)[k] by {
                assert(from@[k] == coming[k + 1]);
                assert(course_views(coming)[k + 1] == all.subrange(done, all.len() as int)[k + 1]);
            }
            assert(course_views(from@) =~= all.subrange(done + 1, all.len() as int));
            assert(before.subrange(0, j as int) == before);
            assert(course_insert(before, course@) + before.subrange(j as int, j as int)
                == course_insert(before, course@));
        }
        while j > 0 && course.course < r[j - 1].course
            invariant
                j <= r.len(),
                before == course_views(r@),
                course_insert(before, course@) == course_insert(
                    before.subrange(0, j as int),
                    course@,
                ) + before.subrange(j as int, before.len() as int),
            decreases j,
        {
            proof {
                let head = before.subrange(0, j as int);
                assert(head.last() == before[j - 1]);
                assert(before[j - 1] == r@[j - 1]@);
                assert(head.drop_last() == before.subrange(0, j - 1));
                assert(course_insert(head.drop_last(), course@).push(head.last())
                    + before.subrange(j as int, before.len() as int) == course_insert(
                    head.drop_last(),
                    course@,
                ) + before.subrange(j - 1, before.len() as int));
            }
            j -= 1;
        }
        proof {
            let head = before.subrange(0, j as int);
            if j > 0 {
                assert(head.last() == before[j - 1]);
                assert(before[j - 1] == r@[j - 1]@);
            }
            assert(course_insert(head, course@) == head.push(course@));
            assert(head.push(course@) + before.subrange(j as int, before.len() as int)
                == before.insert(j as int, course@));
            assert(course_views(r@.insert(j as int, course)) =~= before.insert(j as int, course@));
            let prefix = all.subrange(0, done + 1);
            assert(prefix.drop_last() == all.subrange(0, done));
            assert(prefix.last() == course@);
        }
        r.insert(j, course);
        proof {
            done = done + 1;
        }
    }
    proof {
        assert(done == all.len()) by {
            assert(course_views(from@).len() == 0);
        }
    }
    r
}

/// A song of a playlist.
#[derive(Clone, Debug)]
pub struct Song {
    tja: TJA,
    music_sha256: Option<String>,
}

/// What a [`Song`] holds.
pub struct SongView {
    pub tja: ChartView,
    /// The mark of the music, once it is known.
    pub music_sha256: Option<Seq<char>>,
}

impl View for Song {
    type V = SongView;

    closed spec fn view(&self) -> SongView {
        SongView { tja: self.tja@, music_sha256: text_view(self.music_sha256) }
    }
}

impl Song {
    /// The song of a chart that was read from the file `stem`, made ready
    /// for a menu; see [`settled`].
    pub fn new(tja: TJA, stem: &str) -> (r: Self)
        ensures
            r@ == (SongView { tja: settled(tja@, stem@), music_sha256: None }),
    {
        let mut tja = tja;
        let untitled: bool = match &tja.header.title {
            Some(t) => t.as_str().is_empty(),
            None => true,
        };
        if untitled {
            tja.header.title = Some(stem.to_owned());
        }
        if tja.header.subtitle.is_none() {
            tja.header.subtitle = Some(String::new());
        }
        let mut courses: Vec<TJACourse> = Vec::new();
        std::mem::swap(&mut tja.courses, &mut courses);
        tja.courses = sorted_courses(courses);
        Song { tja, music_sha256: None }
    }

    pub fn tja(&self) -> (r: &TJA)
        ensures
            r@ == self@.tja,
    {
        &self.tja
    }

    /// The name of the music file that the chart asks for, if it asks for
    /// one.
    pub fn wave(&self) -> (r: Option<String>)
        ensures
            text_view(r) == wanted_wave(self@.tja.header),
    {
        match &self.tja.header.wave {
            Some(w) => {
                if w.as_str().is_empty() {
                    None
                } else {
                    Some(w.clone())
                }
            },
            None => None,
        }
    }

    /// The mark of the music, if it is known.
    pub fn known_sha256(&self) -> (r: Option<String>)
        ensures
            text_view(r) == self@.music_sha256,
    {
        match &self.music_sha256 {
            Some(k) => Some(k.clone()),
            None => None,
        }
    }

    /// The mark of the music where `fresh` is the mark of what was read of
    /// it: the mark that is known, else `fresh`, which is known from then
    /// on.
    pub fn remember(&mut self, fresh: String) -> (r: String)
        ensures
            r@ == known_or(old(self)@.music_sha256, fresh@),
            final(self)@ == (SongView { music_sha256: Some(r@), ..old(self)@ }),
    {
        match &self.music_sha256 {
            Some(k) => k.clone(),
            None => {
                self.music_sha256 = Some(fresh.clone());
                fresh
            },
        }
    }

    /// The mark of the music, which is `music`: the mark that is known,
    /// else the SHA-256 digest of `music` in small hexadecimal digits, which
    /// is known from then on.
    pub fn music_sha256(&mut self, music: &Vec<u8>) -> (r: String)
        ensures
            r@ == known_or(old(self)@.music_sha256, sha256_hex(music@)),
            final(self)@ == (SongView { music_sha256: Some(r@), ..old(self)@ }),
    {
        if self.music_sha256.is_some() {
            // what is known needs no digest
            self.remember(String::new())
        } else {
            self.remember(digest_hex(music))
        }
    }
}

} // verus!
