use calseg::line::{
    ComplexSegmenter, LineBreakOptions, LineSegmenter, NoComplexSegmenter, ResolvedLineBreakOptions,
};
use calseg::rule_data::{
    is_break_by_normal, is_break_utf32_by_loose, BreakState, LineBreakStrictness,
    LineBreakWordOption, PropertyRange, RuleBreakData, AL, BA, CJ, CM, EX, HY, ID, IN, NS, NU,
    PO_EAW, PR, PR_EAW, SA, SP, ZWJ,
};

const COUNT: usize = 58;
const SOT: u8 = 55;
const AFTER_PR_HY: u8 = 56;
const EOT: u8 = 57;

fn set(table: &mut [BreakState], left: u8, right: u8, state: BreakState) {
    table[left as usize * COUNT + right as usize] = state;
}

/// A small rule table: no break before spaces, letters and digits hold
/// together, `$-` holds when a digit follows, and a break everywhere else.
fn data() -> RuleBreakData {
    let mut table = vec![BreakState::Break; COUNT * COUNT];
    for x in 0..COUNT as u8 {
        set(&mut table, x, SP, BreakState::Keep);
        set(&mut table, AFTER_PR_HY, x, BreakState::NoMatch);
    }
    for (l, r) in [(AL, AL), (AL, NU), (NU, AL), (NU, NU), (SA, SA), (PR, NU)] {
        set(&mut table, l, r, BreakState::Keep);
    }
    set(&mut table, PR, HY, BreakState::Intermediate(AFTER_PR_HY));
    set(&mut table, AFTER_PR_HY, NU, BreakState::Keep);
    let ranges = vec![
        PropertyRange { start: 0x20, end: 0x20, class: SP },
        PropertyRange { start: 0x24, end: 0x24, class: PR },
        PropertyRange { start: 0x2D, end: 0x2D, class: HY },
        PropertyRange { start: 0x30, end: 0x39, class: NU },
        PropertyRange { start: 0x41, end: 0x5A, class: AL },
        PropertyRange { start: 0x61, end: 0x7A, class: AL },
        PropertyRange { start: 0x301, end: 0x301, class: CM },
        PropertyRange { start: 0xE00, end: 0xE7F, class: SA },
        PropertyRange { start: 0x200D, end: 0x200D, class: ZWJ },
        PropertyRange { start: 0x3041, end: 0x3041, class: CJ },
        PropertyRange { start: 0x4E00, end: 0x9FFF, class: ID },
    ];
    RuleBreakData {
        property_table: ranges,
        break_state_table: table,
        property_count: COUNT as u8,
        last_codepoint_property: ZWJ,
        sot_property: SOT,
        eot_property: EOT,
    }
}

fn options(strictness: LineBreakStrictness, word_option: LineBreakWordOption) -> LineBreakOptions {
    let mut options = LineBreakOptions::default();
    options.strictness = Some(strictness);
    options.word_option = Some(word_option);
    options
}

fn breaks_str<C: ComplexSegmenter>(segmenter: &LineSegmenter<C>, s: &str) -> Vec<usize> {
    segmenter.as_borrowed().segment_str(s).collect_breaks()
}

struct EveryTwo;

impl ComplexSegmenter for EveryTwo {
    // A ghost item of the trait: only the verifier reads it, and this
    // segmenter is not verified.
    fn spec_segment_run(&self, _run: vstd::seq::Seq<u32>) -> vstd::seq::Seq<usize> {
        unreachable!()
    }

    fn segment_run(&self, run: &Vec<u32>) -> Vec<usize> {
        let mut v = Vec::new();
        let mut i = 2;
        while i < run.len() {
            v.push(i);
            i += 2;
        }
        v.push(run.len());
        v
    }
}

struct Unruly;

impl ComplexSegmenter for Unruly {
    // A ghost item of the trait: only the verifier reads it, and this
    // segmenter is not verified.
    fn spec_segment_run(&self, _run: vstd::seq::Seq<u32>) -> vstd::seq::Seq<usize> {
        unreachable!()
    }

    fn segment_run(&self, run: &Vec<u32>) -> Vec<usize> {
        vec![0, run.len() + 5, 3]
    }
}

struct Backwards;

impl ComplexSegmenter for Backwards {
    // A ghost item of the trait: only the verifier reads it, and this
    // segmenter is not verified.
    fn spec_segment_run(&self, _run: vstd::seq::Seq<u32>) -> vstd::seq::Seq<usize> {
        unreachable!()
    }

    fn segment_run(&self, _run: &Vec<u32>) -> Vec<usize> {
        vec![3, 2]
    }
}

#[test]
fn empty_string() {
    let segmenter = LineSegmenter::new(data(), NoComplexSegmenter, Default::default());
    let breaks: Vec<usize> = breaks_str(&segmenter, "");
    assert_eq!(breaks, [0]);
    let mut iter = segmenter.as_borrowed().segment_utf16(&[]);
    assert_eq!(iter.next(), Some(0));
    assert_eq!(iter.next(), None);
    assert_eq!(iter.next(), None);
}

#[test]
fn hello_world_in_each_encoding() {
    let segmenter = LineSegmenter::new(data(), NoComplexSegmenter, Default::default());
    let borrowed = segmenter.as_borrowed();
    let mut iter = borrowed.segment_str("hello world");
    assert_eq!(Some(0), iter.next());
    assert_eq!(Some(6), iter.next());
    assert_eq!(Some(11), iter.next());
    assert_eq!(None, iter.next());
    assert_eq!(borrowed.segment_latin1(b"hello world").collect_breaks(), [0, 6, 11]);
    let utf16: Vec<u16> = "hello world".encode_utf16().collect();
    assert_eq!(borrowed.segment_utf16(&utf16).collect_breaks(), [0, 6, 11]);
    assert_eq!(borrowed.segment_utf8(b"hello world").collect_breaks(), [0, 6, 11]);
}

#[test]
fn break_all_breaks_between_letters() {
    let segmenter = LineSegmenter::new(
        data(),
        NoComplexSegmenter,
        options(LineBreakStrictness::Strict, LineBreakWordOption::BreakAll),
    );
    assert_eq!(breaks_str(&segmenter, "Hello World"), [0, 1, 2, 3, 4, 6, 7, 8, 9, 10, 11]);
}

#[test]
fn keep_all_keeps_ideographs() {
    let normal = LineSegmenter::new(data(), NoComplexSegmenter, Default::default());
    assert_eq!(breaks_str(&normal, "漢字"), [0, 3, 6]);
    let keep_all = LineSegmenter::new(
        data(),
        NoComplexSegmenter,
        options(LineBreakStrictness::Strict, LineBreakWordOption::KeepAll),
    );
    assert_eq!(breaks_str(&keep_all, "漢字"), [0, 6]);
}

#[test]
fn anywhere_breaks_at_every_code_point() {
    let segmenter = LineSegmenter::new(
        data(),
        NoComplexSegmenter,
        options(LineBreakStrictness::Anywhere, LineBreakWordOption::Normal),
    );
    assert_eq!(breaks_str(&segmenter, "ab c"), [0, 1, 2, 3, 4]);
}

#[test]
fn longer_rules_and_fallback() {
    let segmenter = LineSegmenter::new(data(), NoComplexSegmenter, Default::default());
    assert_eq!(breaks_str(&segmenter, "$-1 x"), [0, 4, 5]);
    assert_eq!(breaks_str(&segmenter, "$-a"), [0, 1, 2, 3]);
    assert_eq!(breaks_str(&segmenter, "$-"), [0, 1, 2]);
}

#[test]
fn combining_marks_attach() {
    let segmenter = LineSegmenter::new(data(), NoComplexSegmenter, Default::default());
    assert_eq!(breaks_str(&segmenter, "a\u{301}b"), [0, 4]);
    // after a space the mark stands alone, and this table breaks around it
    assert_eq!(breaks_str(&segmenter, "a \u{301}b"), [0, 2, 4, 5]);
}

#[test]
fn ill_formed_utf8_reads_replacement() {
    let segmenter = LineSegmenter::new(data(), NoComplexSegmenter, Default::default());
    let breaks = segmenter.as_borrowed().segment_utf8(&[b'a', 0xFF, b' ', b'b']).collect_breaks();
    assert_eq!(breaks, [0, 1, 3, 4]);
}

#[test]
fn thai_run_breaks_from_segmenter() {
    const TEST_STR: &str = "กขคงจฉช";
    let segmenter = LineSegmenter::new(data(), EveryTwo, Default::default());
    assert_eq!(breaks_str(&segmenter, TEST_STR), [0, 6, 12, 18, TEST_STR.len()]);
    let utf16: Vec<u16> = TEST_STR.encode_utf16().collect();
    let breaks = segmenter.as_borrowed().segment_utf16(&utf16).collect_breaks();
    assert_eq!(breaks, [0, 2, 4, 6, utf16.len()]);
    assert_eq!(breaks_str(&segmenter, "ab กขคง"), [0, 3, 9, 15]);
    assert_eq!(breaks_str(&segmenter, "กขค a"), [0, 6, 9, 10, 11]);
}

#[test]
fn complex_offsets_outside_the_run_are_dropped() {
    const TEST_STR: &str = "กขคงจฉช";
    let unruly = LineSegmenter::new(data(), Unruly, Default::default());
    assert_eq!(breaks_str(&unruly, TEST_STR), [0, TEST_STR.len()]);
    let backwards = LineSegmenter::new(data(), Backwards, Default::default());
    assert_eq!(breaks_str(&backwards, TEST_STR), [0, 9, 18, 21]);
    let none = LineSegmenter::new(data(), NoComplexSegmenter, Default::default());
    assert_eq!(breaks_str(&none, TEST_STR), [0, 21]);
}

#[test]
fn latin1_has_no_complex_breaking() {
    let segmenter = LineSegmenter::new(data(), EveryTwo, Default::default());
    let input: Vec<u8> = "ab cd".bytes().collect();
    assert_eq!(segmenter.as_borrowed().segment_latin1(&input).collect_breaks(), [0, 3, 5]);
}

#[test]
fn linebreak_property_with_rules() {
    let d = data();
    assert_eq!(d.property(0x20), SP);
    assert_eq!(d.property(0x10FFFF), 0);
    assert_eq!(
        d.get_linebreak_property_utf32_with_rule(0x3041, LineBreakStrictness::Strict, LineBreakWordOption::Normal),
        CJ
    );
    assert_eq!(
        d.get_linebreak_property_utf32_with_rule(0x3041, LineBreakStrictness::Loose, LineBreakWordOption::Normal),
        ID
    );
    assert_eq!(
        d.get_linebreak_property_utf32_with_rule(0x3041, LineBreakStrictness::Strict, LineBreakWordOption::BreakAll),
        ID
    );
    assert!(d.use_complex_breaking_utf32(0xE01));
    assert!(!d.use_complex_breaking_utf32(0x61));
}

#[test]
fn break_state_table_lookup() {
    let d = data();
    assert_eq!(d.get_break_state_from_table(AL, AL), BreakState::Keep);
    assert_eq!(d.get_break_state_from_table(SP, AL), BreakState::Break);
    assert_eq!(d.get_break_state_from_table(PR, HY), BreakState::Intermediate(AFTER_PR_HY));
    // past the end of the table
    assert_eq!(d.get_break_state_from_table(200, 200), BreakState::Keep);
}

#[test]
fn loose_rules() {
    assert_eq!(is_break_utf32_by_loose(0x2010, ID, BA, false), Some(true));
    assert_eq!(is_break_utf32_by_loose(0x2010, AL, BA, false), None);
    assert_eq!(is_break_utf32_by_loose(0x301C, AL, NS, true), Some(true));
    assert_eq!(is_break_utf32_by_loose(0x301C, AL, NS, false), Some(false));
    assert_eq!(is_break_utf32_by_loose(0x3005, AL, NS, false), Some(true));
    assert_eq!(is_break_utf32_by_loose(0x2048, AL, NS, true), Some(true));
    assert_eq!(is_break_utf32_by_loose(0x2025, AL, IN, false), Some(true));
    assert_eq!(is_break_utf32_by_loose(0xFF01, AL, EX, true), Some(true));
    assert_eq!(is_break_utf32_by_loose(0x21, AL, EX, true), None);
    assert_eq!(is_break_utf32_by_loose(0x25, AL, PO_EAW, false), Some(false));
    assert_eq!(is_break_utf32_by_loose(0x61, PR_EAW, AL, true), Some(true));
    assert_eq!(is_break_utf32_by_loose(0x61, AL, AL, true), None);
    assert!(is_break_by_normal(0x30A0, true));
    assert!(!is_break_by_normal(0x30A0, false));
    assert!(!is_break_by_normal(0x61, true));
}

#[test]
fn resolved_options() {
    let resolved = ResolvedLineBreakOptions::from(LineBreakOptions::default());
    assert_eq!(resolved.strictness, LineBreakStrictness::Strict);
    assert_eq!(resolved.word_option, LineBreakWordOption::Normal);
    assert!(!resolved.ja_zh);
    let mut options = LineBreakOptions::default();
    options.content_locale = Some(*b"ja\0");
    assert!(ResolvedLineBreakOptions::from(options).ja_zh);
    options.content_locale = Some(*b"zh\0");
    assert!(ResolvedLineBreakOptions::from(options).ja_zh);
    options.content_locale = Some(*b"en\0");
    assert!(!ResolvedLineBreakOptions::from(options).ja_zh);
}

#[test]
fn normal_strictness_for_japanese() {
    let mut table = data();
    table.property_table.push(PropertyRange { start: 0x30A0, end: 0x30A0, class: NS });
    table.break_state_table[AL as usize * COUNT + NS as usize] = BreakState::Keep;
    let mut ja = options(LineBreakStrictness::Normal, LineBreakWordOption::Normal);
    ja.content_locale = Some(*b"ja\0");
    let segmenter = LineSegmenter::new(table.clone(), NoComplexSegmenter, ja);
    assert_eq!(breaks_str(&segmenter, "a\u{30A0}"), [0, 1, 4]);
    let strict = LineSegmenter::new(table, NoComplexSegmenter, Default::default());
    assert_eq!(breaks_str(&strict, "a\u{30A0}"), [0, 4]);
}

#[test]
fn loose_strictness_in_the_iterator() {
    let mut table = data();
    table.property_table.push(PropertyRange { start: 0x2010, end: 0x2010, class: BA });
    table.break_state_table[ID as usize * COUNT + BA as usize] = BreakState::Keep;
    let loose = LineSegmenter::new(
        table.clone(),
        NoComplexSegmenter,
        options(LineBreakStrictness::Loose, LineBreakWordOption::Normal),
    );
    // a hyphen after an ideograph may start a line under the loose rules
    assert_eq!(breaks_str(&loose, "漢\u{2010}"), [0, 3, 6]);
    let strict = LineSegmenter::new(table, NoComplexSegmenter, Default::default());
    assert_eq!(breaks_str(&strict, "漢\u{2010}"), [0, 6]);
}

#[test]
fn anywhere_keeps_combining_marks() {
    let segmenter = LineSegmenter::new(
        data(),
        NoComplexSegmenter,
        options(LineBreakStrictness::Anywhere, LineBreakWordOption::Normal),
    );
    assert_eq!(breaks_str(&segmenter, "a\u{301}bc"), [0, 3, 4, 5]);
}

#[test]
fn ascii_breaks_agree_across_encodings() {
    let segmenter = LineSegmenter::new(data(), NoComplexSegmenter, Default::default());
    let borrowed = segmenter.as_borrowed();
    for s in ["$-1 x", "hello world", "ab  cd", "9 $-a"] {
        let utf8 = borrowed.segment_str(s).collect_breaks();
        let latin1 = borrowed.segment_latin1(s.as_bytes()).collect_breaks();
        let utf16: Vec<u16> = s.encode_utf16().collect();
        assert_eq!(utf8, latin1, "{s}");
        assert_eq!(utf8, borrowed.segment_utf16(&utf16).collect_breaks(), "{s}");
    }
}
