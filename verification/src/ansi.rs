use vstd::prelude::*;

use crate::strutil::{from_chars, to_chars};

verus! {

// ---------------------------------------------------------------------------
// Colors and styles
// ---------------------------------------------------------------------------

/// A terminal color: the 8 standard and 8 bright colors, the 256-color
/// palette, and 24-bit color.
#[derive(Clone, Copy, Debug, PartialEq, Eq)]
pub enum Color {
    Black,
    Red,
    Green,
    Yellow,
    Blue,
    Magenta,
    Cyan,
    Gray,
    DarkGray,
    LightRed,
    LightGreen,
    LightYellow,
    LightBlue,
    LightMagenta,
    LightCyan,
    White,
    Indexed(u8),
    Rgb(u8, u8, u8),
}

/// A text style: toggles and optional colors. `None` for a color means the
/// terminal default.
#[derive(Clone, Copy, Debug, PartialEq, Eq)]
pub struct Style {
    pub bold: bool,
    pub italic: bool,
    pub underlined: bool,
    pub slow_blink: bool,
    pub rapid_blink: bool,
    pub reversed: bool,
    pub crossed_out: bool,
    pub fg: Option<Color>,
    pub bg: Option<Color>,
    pub underline_color: Option<Color>,
}

/// The all-default style.
pub open spec fn spec_default_style() -> Style {
    Style {
        bold: false,
        italic: false,
        underlined: false,
        slow_blink: false,
        rapid_blink: false,
        reversed: false,
        crossed_out: false,
        fg: None,
        bg: None,
        underline_color: None,
    }
}

impl Style {
    /// The all-default style.
    pub fn plain() -> (r: Style)
        ensures
            r == spec_default_style(),
    {
        Style {
            bold: false,
            italic: false,
            underlined: false,
            slow_blink: false,
            rapid_blink: false,
            reversed: false,
            crossed_out: false,
            fg: None,
            bg: None,
            underline_color: None,
        }
    }
}

impl Default for Style {
    fn default() -> (r: Style)
        ensures
            r == spec_default_style(),
    {
        Style::plain()
    }
}

// ---------------------------------------------------------------------------
// SGR parameters
// ---------------------------------------------------------------------------

/// `s` is one to three decimal digits.
pub open spec fn is_short_digits(s: Seq<char>) -> bool {
    1 <= s.len() <= 3 && forall|i: int| 0 <= i < s.len() ==> '0' <= #[trigger] s[i] <= '9'
}

/// The decimal value of a digit string.
pub open spec fn dec_val(s: Seq<char>) -> int
    decreases s.len(),
{
    if s.len() == 0 {
        0
    } else {
        dec_val(s.drop_last()) * 10 + (s.last() as int - '0' as int)
    }
}

/// Splits on `;`, keeping empty segments.
pub open spec fn split_semi_rec(s: Seq<char>, cur: Seq<char>, acc: Seq<Seq<char>>) -> Seq<
    Seq<char>,
>
    decreases s.len(),
{
    if s.len() == 0 {
        acc.push(cur)
    } else if s[0] == ';' {
        split_semi_rec(s.skip(1), Seq::empty(), acc.push(cur))
    } else {
        split_semi_rec(s.skip(1), cur.push(s[0]), acc)
    }
}

pub open spec fn split_semi(s: Seq<char>) -> Seq<Seq<char>> {
    split_semi_rec(s, Seq::empty(), Seq::empty())
}

/// A valid byte-sized segment and its value.
pub open spec fn seg_byte(s: Seq<char>) -> Option<int> {
    if is_short_digits(s) && dec_val(s) <= 255 {
        Some(dec_val(s))
    } else {
        None
    }
}

/// The color named by an extended SGR code's tail: `5;n` or `2;r;g;b`.
pub open spec fn spec_extended_color(segs: Seq<Seq<char>>) -> Option<Color> {
    if segs.len() == 3 && segs[1] =~= seq!['5'] && seg_byte(segs[2]) is Some {
        Some(Color::Indexed(seg_byte(segs[2]).unwrap() as u8))
    } else if segs.len() == 5 && segs[1] =~= seq!['2'] && seg_byte(segs[2]) is Some && seg_byte(
        segs[3],
    ) is Some && seg_byte(segs[4]) is Some {
        Some(
            Color::Rgb(
                seg_byte(segs[2]).unwrap() as u8,
                seg_byte(segs[3]).unwrap() as u8,
                seg_byte(segs[4]).unwrap() as u8,
            ),
        )
    } else {
        None
    }
}

/// The style produced by one SGR parameter string. Unrecognized parameters
/// leave the style unchanged.
pub open spec fn spec_apply_sgr(st: Style, p: Seq<char>) -> Style {
    if p =~= Seq::<char>::empty() || p =~= "0"@ {
        spec_default_style()
    } else if p =~= "1"@ {
        Style { bold: true, ..st }
    } else if p =~= "3"@ {
        Style { italic: true, ..st }
    } else if p =~= "4"@ {
        Style { underlined: true, ..st }
    } else if p =~= "5"@ {
        Style { rapid_blink: true, ..st }
    } else if p =~= "6"@ {
        Style { slow_blink: true, ..st }
    } else if p =~= "7"@ {
        Style { reversed: true, ..st }
    } else if p =~= "9"@ {
        Style { crossed_out: true, ..st }
    } else if p =~= "22"@ {
        Style { bold: false, ..st }
    } else if p =~= "23"@ {
        Style { italic: false, ..st }
    } else if p =~= "24"@ {
        Style { underlined: false, ..st }
    } else if p =~= "25"@ {
        Style { rapid_blink: false, slow_blink: false, ..st }
    } else if p =~= "27"@ {
        Style { reversed: false, ..st }
    } else if p =~= "29"@ {
        Style { crossed_out: false, ..st }
    } else if p =~= "30"@ {
        Style { fg: Some(Color::Black), ..st }
    } else if p =~= "31"@ {
        Style { fg: Some(Color::Red), ..st }
    } else if p =~= "32"@ {
        Style { fg: Some(Color::Green), ..st }
    } else if p =~= "33"@ {
        Style { fg: Some(Color::Yellow), ..st }
    } else if p =~= "34"@ {
        Style { fg: Some(Color::Blue), ..st }
    } else if p =~= "35"@ {
        Style { fg: Some(Color::Magenta), ..st }
    } else if p =~= "36"@ {
        Style { fg: Some(Color::Cyan), ..st }
    } else if p =~= "37"@ {
        Style { fg: Some(Color::Gray), ..st }
    } else if p =~= "39"@ {
        Style { fg: None, ..st }
    } else if p =~= "40"@ {
        Style { bg: Some(Color::Black), ..st }
    } else if p =~= "41"@ {
        Style { bg: Some(Color::Red), ..st }
    } else if p =~= "42"@ {
        Style { bg: Some(Color::Green), ..st }
    } else if p =~= "43"@ {
        Style { bg: Some(Color::Yellow), ..st }
    } else if p =~= "44"@ {
        Style { bg: Some(Color::Blue), ..st }
    } else if p =~= "45"@ {
        Style { bg: Some(Color::Magenta), ..st }
    } else if p =~= "46"@ {
        Style { bg: Some(Color::Cyan), ..st }
    } else if p =~= "47"@ {
        Style { bg: Some(Color::Gray), ..st }
    } else if p =~= "49"@ {
        Style { bg: None, ..st }
    } else if p =~= "90"@ {
        Style { fg: Some(Color::DarkGray), ..st }
    } else if p =~= "91"@ {
        Style { fg: Some(Color::LightRed), ..st }
    } else if p =~= "92"@ {
        Style { fg: Some(Color::LightGreen), ..st }
    } else if p =~= "93"@ {
        Style { fg: Some(Color::LightYellow), ..st }
    } else if p =~= "94"@ {
        Style { fg: Some(Color::LightBlue), ..st }
    } else if p =~= "95"@ {
        Style { fg: Some(Color::LightMagenta), ..st }
    } else if p =~= "96"@ {
        Style { fg: Some(Color::LightCyan), ..st }
    } else if p =~= "97"@ {
        Style { fg: Some(Color::White), ..st }
    } else if p =~= "100"@ {
        Style { bg: Some(Color::DarkGray), ..st }
    } else if p =~= "101"@ {
        Style { bg: Some(Color::LightRed), ..st }
    } else if p =~= "102"@ {
        Style { bg: Some(Color::LightGreen), ..st }
    } else if p =~= "103"@ {
        Style { bg: Some(Color::LightYellow), ..st }
    } else if p =~= "104"@ {
        Style { bg: Some(Color::LightBlue), ..st }
    } else if p =~= "105"@ {
        Style { bg: Some(Color::LightMagenta), ..st }
    } else if p =~= "106"@ {
        Style { bg: Some(Color::LightCyan), ..st }
    } else if p =~= "107"@ {
        Style { bg: Some(Color::White), ..st }
    } else {
        let segs = split_semi(p);
        if segs.len() >= 1 && segs[0] =~= "38"@ && spec_extended_color(segs) is Some {
            Style { fg: Some(spec_extended_color(segs).unwrap()), ..st }
        } else if segs.len() >= 1 && segs[0] =~= "48"@ && spec_extended_color(segs) is Some {
            Style { bg: Some(spec_extended_color(segs).unwrap()), ..st }
        } else if segs.len() >= 1 && segs[0] =~= "58"@ && spec_extended_color(segs) is Some {
            Style { underline_color: Some(spec_extended_color(segs).unwrap()), ..st }
        } else {
            st
        }
    }
}

// ---------------------------------------------------------------------------
// Executable SGR handling
// ---------------------------------------------------------------------------

/// The characters of `v` equal the characters of `lit`.
fn chars_eq_str(v: &Vec<char>, lit: &str) -> (r: bool)
    ensures
        r == (v@ == lit@),
{
    let n = lit.unicode_len();
    if v.len() != n {
        proof {
            assert(v@ != lit@);
        }
        return false;
    }
    let mut i: usize = 0;
    while i < n
        invariant
            n == lit@.len(),
            v@.len() == n,
            i <= n,
            forall|k: int| 0 <= k < i ==> v@[k] == lit@[k],
        decreases n - i,
    {
        if v[i] != lit.get_char(i) {
            return false;
        }
        i = i + 1;
    }
    proof {
        assert(v@ =~= lit@);
    }
    true
}

/// Parses a one-to-three-digit decimal segment worth at most 255.
fn seg_byte_exec(s: &Vec<char>) -> (r: Option<u8>)
    ensures
        match r {
            Some(v) => seg_byte(s@) == Some(v as int),
            None => seg_byte(s@) is None,
        },
{
    let n = s.len();
    if n < 1 || n > 3 {
        return None;
    }
    let mut v: u16 = 0;
    let mut i: usize = 0;
    while i < n
        invariant
            n == s@.len(),
            1 <= n <= 3,
            i <= n,
            forall|k: int| 0 <= k < i ==> '0' <= #[trigger] s@[k] <= '9',
            v as int == dec_val(s@.take(i as int)),
            v < (if i == 0 {
                1int
            } else if i == 1 {
                10int
            } else if i == 2 {
                100int
            } else {
                1000int
            }),
        decreases n - i,
    {
        let c = s[i];
        if c < '0' || c > '9' {
            proof {
                assert(!is_short_digits(s@));
            }
            return None;
        }
        proof {
            assert(s@.take(i as int + 1).drop_last() =~= s@.take(i as int));
            assert(s@.take(i as int + 1).last() == s@[i as int]);
        }
        v = v * 10 + ((c as u32) as u16 - ('0' as u32) as u16);
        i = i + 1;
    }
    proof {
        assert(s@.take(n as int) =~= s@);
        assert(is_short_digits(s@));
    }
    if v <= 255 {
        Some(v as u8)
    } else {
        None
    }
}

/// Splits a parameter list on `;`, keeping empty segments.
fn split_semi_exec(p: &Vec<char>) -> (r: Vec<Vec<char>>)
    ensures
        r@.map_values(|x: Vec<char>| x@) == split_semi(p@),
{
    let n = p.len();
    let mut acc: Vec<Vec<char>> = Vec::new();
    let mut cur: Vec<char> = Vec::new();
    let mut i: usize = 0;
    proof {
        assert(p@.skip(0) =~= p@);
        assert(cur@ =~= Seq::<char>::empty());
        assert(acc@.map_values(|x: Vec<char>| x@) =~= Seq::<Seq<char>>::empty());
    }
    while i < n
        invariant
            n == p@.len(),
            i <= n,
            split_semi_rec(p@.skip(i as int), cur@, acc@.map_values(|x: Vec<char>| x@))
                == split_semi(p@),
        decreases n - i,
    {
        let ghost pre_s = p@.skip(i as int);
        let ghost pre_cur = cur@;
        let ghost pre_acc = acc@.map_values(|x: Vec<char>| x@);
        let c = p[i];
        proof {
            assert(pre_s[0] == p@[i as int]);
            assert(pre_s.skip(1) =~= p@.skip(i as int + 1));
        }
        if c == ';' {
            acc.push(cur);
            cur = Vec::new();
            proof {
                assert(acc@.map_values(|x: Vec<char>| x@) =~= pre_acc.push(pre_cur));
                assert(cur@ =~= Seq::<char>::empty());
            }
        } else {
            cur.push(c);
        }
        i = i + 1;
    }
    proof {
        assert(p@.skip(n as int) =~= Seq::<char>::empty());
    }
    let ghost pre_acc = acc@.map_values(|x: Vec<char>| x@);
    let ghost pre_cur = cur@;
    acc.push(cur);
    proof {
        assert(acc@.map_values(|x: Vec<char>| x@) =~= pre_acc.push(pre_cur));
    }
    acc
}

/// Applies one SGR parameter string to a style.
pub fn apply_sgr(st: Style, params: &Vec<char>) -> (r: Style)
    ensures
        r == spec_apply_sgr(st, params@),
{
    if params.len() == 0 {
        proof {
            assert(params@ =~= Seq::<char>::empty());
        }
        return Style::plain();
    }
    if chars_eq_str(params, "0") {
        return Style::plain();
    }
    if chars_eq_str(params, "1") {
        return Style { bold: true, ..st };
    }
    if chars_eq_str(params, "3") {
        return Style { italic: true, ..st };
    }
    if chars_eq_str(params, "4") {
        return Style { underlined: true, ..st };
    }
    if chars_eq_str(params, "5") {
        return Style { rapid_blink: true, ..st };
    }
    if chars_eq_str(params, "6") {
        return Style { slow_blink: true, ..st };
    }
    if chars_eq_str(params, "7") {
        return Style { reversed: true, ..st };
    }
    if chars_eq_str(params, "9") {
        return Style { crossed_out: true, ..st };
    }
    if chars_eq_str(params, "22") {
        return Style { bold: false, ..st };
    }
    if chars_eq_str(params, "23") {
        return Style { italic: false, ..st };
    }
    if chars_eq_str(params, "24") {
        return Style { underlined: false, ..st };
    }
    if chars_eq_str(params, "25") {
        return Style { rapid_blink: false, slow_blink: false, ..st };
    }
    if chars_eq_str(params, "27") {
        return Style { reversed: false, ..st };
    }
    if chars_eq_str(params, "29") {
        return Style { crossed_out: false, ..st };
    }
    if chars_eq_str(params, "30") {
        return Style { fg: Some(Color::Black), ..st };
    }
    if chars_eq_str(params, "31") {
        return Style { fg: Some(Color::Red), ..st };
    }
    if chars_eq_str(params, "32") {
        return Style { fg: Some(Color::Green), ..st };
    }
    if chars_eq_str(params, "33") {
        return Style { fg: Some(Color::Yellow), ..st };
    }
    if chars_eq_str(params, "34") {
        return Style { fg: Some(Color::Blue), ..st };
    }
    if chars_eq_str(params, "35") {
        return Style { fg: Some(Color::Magenta), ..st };
    }
    if chars_eq_str(params, "36") {
        return Style { fg: Some(Color::Cyan), ..st };
    }
    if chars_eq_str(params, "37") {
        return Style { fg: Some(Color::Gray), ..st };
    }
    if chars_eq_str(params, "39") {
        return Style { fg: None, ..st };
    }
    if chars_eq_str(params, "40") {
        return Style { bg: Some(Color::Black), ..st };
    }
    if chars_eq_str(params, "41") {
        return Style { bg: Some(Color::Red), ..st };
    }
    if chars_eq_str(params, "42") {
        return Style { bg: Some(Color::Green), ..st };
    }
    if chars_eq_str(params, "43") {
        return Style { bg: Some(Color::Yellow), ..st };
    }
    if chars_eq_str(params, "44") {
        return Style { bg: Some(Color::Blue), ..st };
    }
    if chars_eq_str(params, "45") {
        return Style { bg: Some(Color::Magenta), ..st };
    }
    if chars_eq_str(params, "46") {
        return Style { bg: Some(Color::Cyan), ..st };
    }
    if chars_eq_str(params, "47") {
        return Style { bg: Some(Color::Gray), ..st };
    }
    if chars_eq_str(params, "49") {
        return Style { bg: None, ..st };
    }
    if chars_eq_str(params, "90") {
        return Style { fg: Some(Color::DarkGray), ..st };
    }
    if chars_eq_str(params, "91") {
        return Style { fg: Some(Color::LightRed), ..st };
    }
    if chars_eq_str(params, "92") {
        return Style { fg: Some(Color::LightGreen), ..st };
    }
    if chars_eq_str(params, "93") {
        return Style { fg: Some(Color::LightYellow), ..st };
    }
    if chars_eq_str(params, "94") {
        return Style { fg: Some(Color::LightBlue), ..st };
    }
    if chars_eq_str(params, "95") {
        return Style { fg: Some(Color::LightMagenta), ..st };
    }
    if chars_eq_str(params, "96") {
        return Style { fg: Some(Color::LightCyan), ..st };
    }
    if chars_eq_str(params, "97") {
        return Style { fg: Some(Color::White), ..st };
    }
    if chars_eq_str(params, "100") {
        return Style { bg: Some(Color::DarkGray), ..st };
    }
    if chars_eq_str(params, "101") {
        return Style { bg: Some(Color::LightRed), ..st };
    }
    if chars_eq_str(params, "102") {
        return Style { bg: Some(Color::LightGreen), ..st };
    }
    if chars_eq_str(params, "103") {
        return Style { bg: Some(Color::LightYellow), ..st };
    }
    if chars_eq_str(params, "104") {
        return Style { bg: Some(Color::LightBlue), ..st };
    }
    if chars_eq_str(params, "105") {
        return Style { bg: Some(Color::LightMagenta), ..st };
    }
    if chars_eq_str(params, "106") {
        return Style { bg: Some(Color::LightCyan), ..st };
    }
    if chars_eq_str(params, "107") {
        return Style { bg: Some(Color::White), ..st };
    }
    let segs = split_semi_exec(params);
    let ghost segsv = segs@.map_values(|x: Vec<char>| x@);
    let color: Option<Color> = if segs.len() == 3 && chars_eq_str(&segs[1], "5") {
        match seg_byte_exec(&segs[2]) {
            Some(v) => Some(Color::Indexed(v)),
            None => None,
        }
    } else if segs.len() == 5 && chars_eq_str(&segs[1], "2") {
        match (seg_byte_exec(&segs[2]), seg_byte_exec(&segs[3]), seg_byte_exec(&segs[4])) {
            (Some(a), Some(b), Some(c)) => Some(Color::Rgb(a, b, c)),
            _ => None,
        }
    } else {
        None
    };
    proof {
        reveal_strlit("5");
        reveal_strlit("2");
        assert("5"@ =~= seq!['5']);
        assert("2"@ =~= seq!['2']);
        assert(segsv.len() == segs@.len());
        match color {
            Some(c) => {
                assert(spec_extended_color(segsv) == Some(c));
            },
            None => {
                assert(spec_extended_color(segsv) is None);
            },
        }
    }
    if segs.len() >= 1 && chars_eq_str(&segs[0], "38") {
        match color {
            Some(c) => Style { fg: Some(c), ..st },
            None => st,
        }
    } else if segs.len() >= 1 && chars_eq_str(&segs[0], "48") {
        match color {
            Some(c) => Style { bg: Some(c), ..st },
            None => st,
        }
    } else if segs.len() >= 1 && chars_eq_str(&segs[0], "58") {
        match color {
            Some(c) => Style { underline_color: Some(c), ..st },
            None => st,
        }
    } else {
        st
    }
}

// ---------------------------------------------------------------------------
// Styled text
// ---------------------------------------------------------------------------

/// A run of text under one style.
#[derive(Debug, Clone)]
pub struct Span {
    pub content: String,
    pub style: Style,
}

/// One display line: an ordered sequence of styled runs.
#[derive(Debug, Clone)]
pub struct Line {
    pub spans: Vec<Span>,
}

/// The converter's output: display lines, wrapped at the column budget.
#[derive(Debug, Clone)]
pub struct StyledText {
    pub lines: Vec<Line>,
}

/// The characters carried by a sequence of spans.
pub open spec fn spans_text(spans: Seq<Span>) -> Seq<char>
    decreases spans.len(),
{
    if spans.len() == 0 {
        Seq::empty()
    } else {
        spans_text(spans.drop_last()) + spans.last().content@
    }
}

/// The characters carried by one display line.
pub open spec fn line_text(l: Line) -> Seq<char> {
    spans_text(l.spans@)
}

/// The characters carried by a sequence of display lines, in order.
pub open spec fn lines_text(ls: Seq<Line>) -> Seq<char>
    decreases ls.len(),
{
    if ls.len() == 0 {
        Seq::empty()
    } else {
        lines_text(ls.drop_last()) + line_text(ls.last())
    }
}

proof fn lemma_spans_text_push(spans: Seq<Span>, sp: Span)
    ensures
        spans_text(spans.push(sp)) == spans_text(spans) + sp.content@,
{
    assert(spans.push(sp).drop_last() =~= spans);
    assert(spans.push(sp).last() == sp);
}

proof fn lemma_lines_text_push(ls: Seq<Line>, l: Line)
    ensures
        lines_text(ls.push(l)) == lines_text(ls) + line_text(l),
{
    assert(ls.push(l).drop_last() =~= ls);
    assert(ls.push(l).last() == l);
}

// ---------------------------------------------------------------------------
// The converter's model
// ---------------------------------------------------------------------------

/// The position of the first `m` at or after `j`, or the length when there
/// is none.
pub open spec fn esc_pos(s: Seq<char>, j: int) -> int
    decreases s.len() - j,
{
    if j < 0 {
        esc_pos(s, 0)
    } else if j >= s.len() {
        s.len() as int
    } else if s[j] == 'm' {
        j
    } else {
        esc_pos(s, j + 1)
    }
}

proof fn lemma_esc_pos_bounds(s: Seq<char>, j: int)
    requires
        0 <= j <= s.len(),
    ensures
        j <= esc_pos(s, j) <= s.len(),
    decreases s.len() - j,
{
    if j < s.len() && s[j] != 'm' {
        lemma_esc_pos_bounds(s, j + 1);
    }
}

/// Position `i` starts an escape sequence: ESC followed by `[`.
pub open spec fn starts_escape(s: Seq<char>, i: int) -> bool {
    0 <= i && i + 1 < s.len() && s[i] == '\x1b' && s[i + 1] == '['
}

/// The printable characters of `s` from position `i` on: escape sequences
/// are removed, and an unterminated trailing escape swallows the rest.
pub open spec fn plain_from(s: Seq<char>, i: int) -> Seq<char>
    decreases s.len() - i,
{
    if i < 0 || i >= s.len() {
        Seq::empty()
    } else if starts_escape(s, i) {
        let k = esc_pos(s, i + 2);
        if k < s.len() {
            plain_from(
                s,
                if k + 1 > i {
                    k + 1
                } else {
                    i + 1
                },
            )
        } else {
            Seq::empty()
        }
    } else {
        seq![s[i]] + plain_from(s, i + 1)
    }
}

/// The printable characters of a line.
pub open spec fn plain_chars(s: Seq<char>) -> Seq<char> {
    plain_from(s, 0)
}

/// The style after interpreting the escapes of `s` from position `i` on.
pub open spec fn style_from(st: Style, s: Seq<char>, i: int) -> Style
    decreases s.len() - i,
{
    if i < 0 || i >= s.len() {
        st
    } else if starts_escape(s, i) {
        let k = esc_pos(s, i + 2);
        if k < s.len() {
            style_from(
                spec_apply_sgr(st, s.subrange(i + 2, k)),
                s,
                if k + 1 > i {
                    k + 1
                } else {
                    i + 1
                },
            )
        } else {
            st
        }
    } else {
        style_from(st, s, i + 1)
    }
}

/// The style after interpreting every escape of a line.
pub open spec fn style_after(st: Style, s: Seq<char>) -> Style {
    style_from(st, s, 0)
}

/// The printable characters of `s` from position `i` on, each paired with
/// the style in force where it stands: the exact meaning of one line.
pub open spec fn char_styles(st: Style, s: Seq<char>, i: int) -> Seq<(char, Style)>
    decreases s.len() - i,
{
    if i < 0 || i >= s.len() {
        Seq::empty()
    } else if starts_escape(s, i) {
        let k = esc_pos(s, i + 2);
        if k < s.len() {
            char_styles(
                spec_apply_sgr(st, s.subrange(i + 2, k)),
                s,
                if k + 1 > i {
                    k + 1
                } else {
                    i + 1
                },
            )
        } else {
            Seq::empty()
        }
    } else {
        seq![(s[i], st)] + char_styles(st, s, i + 1)
    }
}

/// A run's characters, each paired with the run's style.
pub open spec fn pair_seq(cs: Seq<char>, st: Style) -> Seq<(char, Style)> {
    cs.map_values(|c: char| (c, st))
}

/// The styled characters carried by a sequence of spans.
pub open spec fn spans_pairs(spans: Seq<Span>) -> Seq<(char, Style)>
    decreases spans.len(),
{
    if spans.len() == 0 {
        Seq::empty()
    } else {
        spans_pairs(spans.drop_last()) + pair_seq(spans.last().content@, spans.last().style)
    }
}

/// The styled characters carried by a sequence of display lines.
pub open spec fn lines_pairs(ls: Seq<Line>) -> Seq<(char, Style)>
    decreases ls.len(),
{
    if ls.len() == 0 {
        Seq::empty()
    } else {
        lines_pairs(ls.drop_last()) + spans_pairs(ls.last().spans@)
    }
}

proof fn lemma_spans_pairs_push(spans: Seq<Span>, sp: Span)
    ensures
        spans_pairs(spans.push(sp)) == spans_pairs(spans) + pair_seq(sp.content@, sp.style),
{
    assert(spans.push(sp).drop_last() =~= spans);
    assert(spans.push(sp).last() == sp);
}

proof fn lemma_lines_pairs_push(ls: Seq<Line>, l: Line)
    ensures
        lines_pairs(ls.push(l)) == lines_pairs(ls) + spans_pairs(l.spans@),
{
    assert(ls.push(l).drop_last() =~= ls);
    assert(ls.push(l).last() == l);
}

// ---------------------------------------------------------------------------
// Converting one line
// ---------------------------------------------------------------------------

/// Converts one logical line: strips SGR escapes into style changes, wraps
/// at `max` printable characters per display line (no wrapping when `max`
/// is 0), and returns the style in force after the line.
///
/// Wrapping works character by character, so a codepoint is never split.
/// The span list of a display line is in normal form: every span is
/// non-empty and adjacent spans carry different styles, so the spans are
/// exactly the maximal uniform-style runs of the line's characters.
pub open spec fn wf_spans(spans: Seq<Span>) -> bool {
    &&& forall|i: int| 0 <= i < spans.len() ==> (#[trigger] spans[i]).content@.len() > 0
    &&& forall|i: int|
        0 <= i && i + 1 < spans.len() ==> (#[trigger] spans[i]).style != spans[i + 1].style
}

/// Decides equality of two colors.
fn color_eq(a: Color, b: Color) -> (r: bool)
    ensures
        r == (a == b),
{
    match (a, b) {
        (Color::Black, Color::Black) => true,
        (Color::Red, Color::Red) => true,
        (Color::Green, Color::Green) => true,
        (Color::Yellow, Color::Yellow) => true,
        (Color::Blue, Color::Blue) => true,
        (Color::Magenta, Color::Magenta) => true,
        (Color::Cyan, Color::Cyan) => true,
        (Color::Gray, Color::Gray) => true,
        (Color::DarkGray, Color::DarkGray) => true,
        (Color::LightRed, Color::LightRed) => true,
        (Color::LightGreen, Color::LightGreen) => true,
        (Color::LightYellow, Color::LightYellow) => true,
        (Color::LightBlue, Color::LightBlue) => true,
        (Color::LightMagenta, Color::LightMagenta) => true,
        (Color::LightCyan, Color::LightCyan) => true,
        (Color::White, Color::White) => true,
        (Color::Indexed(x), Color::Indexed(y)) => x == y,
        (Color::Rgb(r1, g1, b1), Color::Rgb(r2, g2, b2)) => r1 == r2 && g1 == g2 && b1 == b2,
        _ => false,
    }
}

/// Decides equality of two optional colors.
fn opt_color_eq(a: Option<Color>, b: Option<Color>) -> (r: bool)
    ensures
        r == (a == b),
{
    match (a, b) {
        (Option::None, Option::None) => true,
        (Option::Some(x), Option::Some(y)) => color_eq(x, y),
        _ => false,
    }
}

/// Decides equality of two styles.
fn style_eq(a: Style, b: Style) -> (r: bool)
    ensures
        r == (a == b),
{
    a.bold == b.bold && a.italic == b.italic && a.underlined == b.underlined && a.slow_blink
        == b.slow_blink && a.rapid_blink == b.rapid_blink && a.reversed == b.reversed
        && a.crossed_out == b.crossed_out && opt_color_eq(a.fg, b.fg) && opt_color_eq(a.bg, b.bg)
        && opt_color_eq(a.underline_color, b.underline_color)
}

/// Flushes one run into a span list in normal form: an empty run is
/// dropped, a run in the style of the last span extends that span, and
/// anything else starts a new span.
#[verifier::rlimit(100)]
fn push_run(spans: &mut Vec<Span>, run: &Vec<char>, style: Style)
    requires
        wf_spans(old(spans)@),
    ensures
        wf_spans(final(spans)@),
        spans_text(final(spans)@) == spans_text(old(spans)@) + run@,
        spans_pairs(final(spans)@) == spans_pairs(old(spans)@) + pair_seq(run@, style),
        run@.len() == 0 ==> final(spans)@ == old(spans)@,
{
    let ghost pre = spans@;
    if run.len() == 0 {
        proof {
            assert(spans_text(pre) + run@ =~= spans_text(pre));
            assert(pair_seq(run@, style) =~= Seq::<(char, Style)>::empty());
            assert(spans_pairs(pre) + pair_seq(run@, style) =~= spans_pairs(pre));
        }
        return ;
    }
    let n = spans.len();
    let merge = n > 0 && style_eq(spans[n - 1].style, style);
    if merge {
        let prev = spans.pop().unwrap();
        let ghost dropped = spans@;
        let mut content = prev.content;
        let ghost prev_content = content@;
        content.append(from_chars(run).as_str());
        let merged = Span { content, style };
        spans.push(merged);
        proof {
            assert(dropped =~= pre.drop_last());
            assert(spans@ =~= dropped.push(merged));
            lemma_spans_text_push(dropped, merged);
            lemma_spans_pairs_push(dropped, merged);
            assert(merged.content@ == prev_content + run@);
            assert(prev == pre.last());
            assert(prev.style == style);
            // the text grows by exactly the run
            assert(spans_text(pre) == spans_text(dropped) + prev_content);
            assert(spans_text(spans@) =~= spans_text(pre) + run@);
            // the styled characters grow by exactly the run under its style
            assert(pair_seq(merged.content@, style) =~= pair_seq(prev_content, prev.style)
                + pair_seq(run@, style));
            assert(spans_pairs(pre) == spans_pairs(dropped) + pair_seq(
                prev_content,
                prev.style,
            ));
            assert(spans_pairs(spans@) =~= spans_pairs(pre) + pair_seq(run@, style));
            // normal form is kept: only the last span changed, in place
            assert forall|k: int| 0 <= k < spans@.len() implies (
            #[trigger] spans@[k]).content@.len() > 0 by {
                if k < spans@.len() - 1 {
                    assert(spans@[k] == pre[k]);
                }
            }
            assert forall|k: int| 0 <= k && k + 1 < spans@.len() implies (
            #[trigger] spans@[k]).style != spans@[k + 1].style by {
                assert(spans@[k] == pre[k]);
                if k + 1 < spans@.len() - 1 {
                    assert(spans@[k + 1] == pre[k + 1]);
                } else {
                    assert(spans@[k + 1].style == pre[k + 1].style);
                }
            }
        }
    } else {
        let sp = Span { content: from_chars(run), style };
        spans.push(sp);
        proof {
            lemma_spans_text_push(pre, sp);
            lemma_spans_pairs_push(pre, sp);
            assert forall|k: int| 0 <= k && k + 1 < spans@.len() implies (
            #[trigger] spans@[k]).style != spans@[k + 1].style by {
                assert(spans@[k] == pre[k]);
                if k + 1 < spans@.len() - 1 {
                    assert(spans@[k + 1] == pre[k + 1]);
                }
            }
            assert(forall|k: int|
                0 <= k < pre.len() ==> #[trigger] spans@[k] == pre[k]);
        }
    }
}

#[verifier::rlimit(60)]
pub fn convert_line(line: &Vec<char>, style0: Style, max: usize) -> (r: (Vec<Line>, Style))
    ensures
        r.0@.len() >= 1,
        lines_text(r.0@) == plain_chars(line@),
        lines_pairs(r.0@) == char_styles(style0, line@, 0),
        r.1 == style_after(style0, line@),
        // breaks happen exactly at the width budget: every display line but
        // the last is full, and the last holds the remainder
        max == 0 ==> r.0@.len() == 1,
        max > 0 ==> r.0@.len() == plain_chars(line@).len() as int / (max as int) + 1,
        max > 0 ==> forall|li: int|
            0 <= li < r.0@.len() - 1 ==> line_text(#[trigger] r.0@[li]).len() == max,
        max > 0 ==> line_text(r.0@.last()).len() == plain_chars(line@).len() as int % (
        max as int),
        max > 0 ==> forall|li: int|
            0 <= li < r.0@.len() ==> line_text(#[trigger] r.0@[li]).len() <= max,
        // spans are in normal form: non-empty, adjacent styles distinct
        forall|li: int| 0 <= li < r.0@.len() ==> wf_spans((#[trigger] r.0@[li]).spans@),
{
    let n = line.len();
    let mut out: Vec<Line> = Vec::new();
    let mut spans: Vec<Span> = Vec::new();
    let mut run: Vec<char> = Vec::new();
    let mut style = style0;
    let mut col: usize = 0;
    let mut i: usize = 0;
    proof {
        assert(lines_text(out@) + spans_text(spans@) + run@ + plain_from(line@, 0) =~= plain_from(
            line@,
            0,
        ));
        assert(lines_pairs(out@) + spans_pairs(spans@) + pair_seq(run@, style) + char_styles(
            style,
            line@,
            0,
        ) =~= char_styles(style0, line@, 0));
    }
    while i < n
        invariant
            n == line@.len(),
            i <= n,
            lines_text(out@) + spans_text(spans@) + run@ + plain_from(line@, i as int)
                == plain_chars(line@),
            lines_pairs(out@) + spans_pairs(spans@) + pair_seq(run@, style) + char_styles(
                style,
                line@,
                i as int,
            ) == char_styles(style0, line@, 0),
            style_from(style, line@, i as int) == style_after(style0, line@),
            col == spans_text(spans@).len() + run@.len(),
            col <= i,
            max > 0 ==> col < max,
            max == 0 ==> out@.len() == 0,
            max > 0 ==> forall|li: int|
                0 <= li < out@.len() ==> line_text(#[trigger] out@[li]).len() == max,
            wf_spans(spans@),
            forall|li: int| 0 <= li < out@.len() ==> wf_spans((#[trigger] out@[li]).spans@),
        decreases n - i,
    {
        let c = line[i];
        if c == '\x1b' && i + 1 < n && line[i + 1] == '[' {
            // flush the current run under the current style
            let ghost pre_spans = spans@;
            let ghost pre_run = run@;
            push_run(&mut spans, &run, style);
            run = Vec::new();
            proof {
                assert(run@ =~= Seq::<char>::empty());
                assert(spans_text(spans@) + run@ =~= spans_text(pre_spans) + pre_run);
                assert(pair_seq(run@, style) =~= Seq::<(char, Style)>::empty());
                assert(spans_pairs(spans@) + pair_seq(run@, style) =~= spans_pairs(pre_spans)
                    + pair_seq(pre_run, style));
            }
            // scan for the terminating `m`
            let mut j: usize = i + 2;
            let mut params: Vec<char> = Vec::new();
            proof {
                assert(params@ =~= line@.subrange(i as int + 2, i as int + 2));
            }
            while j < n && line[j] != 'm'
                invariant
                    n == line@.len(),
                    i + 2 <= j <= n,
                    params@ == line@.subrange(i as int + 2, j as int),
                    esc_pos(line@, i as int + 2) == esc_pos(line@, j as int),
                decreases n - j,
            {
                params.push(line[j]);
                j = j + 1;
                proof {
                    assert(params@ =~= line@.subrange(i as int + 2, j as int));
                }
            }
            if j < n {
                // terminated escape: apply its parameters
                proof {
                    assert(esc_pos(line@, j as int) == j as int);
                    assert(esc_pos(line@, i as int + 2) == j as int);
                    assert(starts_escape(line@, i as int));
                    assert(plain_from(line@, i as int) == plain_from(line@, j as int + 1));
                    assert(style_from(style, line@, i as int) == style_from(
                        spec_apply_sgr(style, line@.subrange(i as int + 2, j as int)),
                        line@,
                        j as int + 1,
                    ));
                    assert(char_styles(style, line@, i as int) == char_styles(
                        spec_apply_sgr(style, line@.subrange(i as int + 2, j as int)),
                        line@,
                        j as int + 1,
                    ));
                    assert(pair_seq(run@, style) =~= Seq::<(char, Style)>::empty());
                    assert(pair_seq(
                        run@,
                        spec_apply_sgr(style, line@.subrange(i as int + 2, j as int)),
                    ) =~= Seq::<(char, Style)>::empty());
                }
                style = apply_sgr(style, &params);
                i = j + 1;
            } else {
                // unterminated: the rest of the line is swallowed
                proof {
                    assert(esc_pos(line@, j as int) == n as int);
                    assert(esc_pos(line@, i as int + 2) == n as int);
                    assert(starts_escape(line@, i as int));
                    assert(plain_from(line@, i as int) =~= Seq::<char>::empty());
                    assert(char_styles(style, line@, i as int) =~= Seq::<(char, Style)>::empty());
                    assert(style_from(style, line@, i as int) == style);
                }
                i = n;
            }
        } else {
            proof {
                assert(!starts_escape(line@, i as int));
                assert(plain_from(line@, i as int) == seq![line@[i as int]] + plain_from(
                    line@,
                    i as int + 1,
                ));
                assert(style_from(style, line@, i as int) == style_from(
                    style,
                    line@,
                    i as int + 1,
                ));
            }
            let ghost pre_run = run@;
            run.push(c);
            col = col + 1;
            i = i + 1;
            proof {
                assert(lines_text(out@) + spans_text(spans@) + pre_run.push(c) + plain_from(
                    line@,
                    i as int,
                ) =~= lines_text(out@) + spans_text(spans@) + pre_run + (seq![c] + plain_from(
                    line@,
                    i as int,
                )));
                assert(char_styles(style, line@, i as int - 1) == seq![(c, style)] + char_styles(
                    style,
                    line@,
                    i as int,
                ));
                assert(pair_seq(pre_run.push(c), style) =~= pair_seq(pre_run, style).push(
                    (c, style),
                ));
                assert(lines_pairs(out@) + spans_pairs(spans@) + pair_seq(pre_run.push(c), style)
                    + char_styles(style, line@, i as int) =~= lines_pairs(out@)
                    + spans_pairs(spans@) + pair_seq(pre_run, style) + (seq![(c, style)]
                    + char_styles(style, line@, i as int)));
            }
            if max > 0 && col == max {
                // the width budget is hit: finish this display line
                let ghost pre_spans = spans@;
                let ghost pre_run = run@;
                push_run(&mut spans, &run, style);
                run = Vec::new();
                let l = Line { spans };
                let ghost pre_out = out@;
                out.push(l);
                proof {
                    lemma_lines_text_push(pre_out, l);
                    lemma_lines_pairs_push(pre_out, l);
                    assert(line_text(l).len() == max);
                }
                spans = Vec::new();
                col = 0;
                proof {
                    assert(run@ =~= Seq::<char>::empty());
                    assert(spans_text(spans@) =~= Seq::<char>::empty());
                    assert(spans_pairs(spans@) =~= Seq::<(char, Style)>::empty());
                    assert(pair_seq(run@, style) =~= Seq::<(char, Style)>::empty());
                    assert(lines_text(out@) + spans_text(spans@) + run@ =~= lines_text(pre_out)
                        + (spans_text(pre_spans) + pre_run));
                    assert(lines_pairs(out@) + spans_pairs(spans@) + pair_seq(run@, style)
                        =~= lines_pairs(pre_out) + (spans_pairs(pre_spans) + pair_seq(
                        pre_run,
                        style,
                    )));
                }
            }
        }
    }
    proof {
        assert(plain_from(line@, n as int) =~= Seq::<char>::empty());
        assert(char_styles(style, line@, n as int) =~= Seq::<(char, Style)>::empty());
    }
    // flush the trailing run and the final display line
    push_run(&mut spans, &run, style);
    proof {
        if run@.len() == 0 {
            assert(pair_seq(run@, style) =~= Seq::<(char, Style)>::empty());
        }
    }
    let l = Line { spans };
    let ghost pre_out = out@;
    out.push(l);
    proof {
        lemma_lines_text_push(pre_out, l);
        lemma_lines_pairs_push(pre_out, l);
        assert(lines_text(out@) =~= plain_chars(line@));
        assert(lines_pairs(out@) =~= char_styles(style0, line@, 0));
        let p = plain_chars(line@).len() as int;
        assert(line_text(l).len() == col);
        if max > 0 {
            lemma_full_lines_len(pre_out, max as int);
            assert(lines_text(out@).len() == lines_text(pre_out).len() + line_text(l).len());
            assert(p == pre_out.len() * (max as int) + col);
            vstd::arithmetic::div_mod::lemma_fundamental_div_mod_converse(
                p,
                max as int,
                pre_out.len() as int,
                col as int,
            );
            assert(out@.len() - 1 == p / (max as int));
            assert(out@.last() == l);
            assert(forall|li: int|
                0 <= li < out@.len() - 1 ==> line_text(#[trigger] out@[li]).len() == max);
        }
    }
    (out, style)
}

/// Display lines that are all exactly `m` long carry `m` characters each.
proof fn lemma_full_lines_len(ls: Seq<Line>, m: int)
    requires
        forall|li: int| 0 <= li < ls.len() ==> line_text(#[trigger] ls[li]).len() == m,
    ensures
        lines_text(ls).len() == ls.len() * m,
    decreases ls.len(),
{
    if ls.len() == 0 {
    } else {
        assert(forall|li: int|
            0 <= li < ls.drop_last().len() ==> line_text(#[trigger] ls.drop_last()[li]).len()
                == m) by {
            assert(forall|li: int|
                0 <= li < ls.drop_last().len() ==> ls.drop_last()[li] == #[trigger] ls[li]);
        }
        lemma_full_lines_len(ls.drop_last(), m);
        assert(line_text(ls.last()).len() == m);
        assert((ls.len() - 1) * m + m == ls.len() * m) by (nonlinear_arith);
    }
}

/// The printable characters of a whole text: the concatenation, line by
/// line, of each line's printable characters.
pub open spec fn plain_all(lines: Seq<Seq<char>>) -> Seq<char>
    decreases lines.len(),
{
    if lines.len() == 0 {
        Seq::empty()
    } else {
        plain_all(lines.drop_last()) + plain_chars(lines.last())
    }
}

/// Splits text into logical lines at `\n`, dropping one `\r` before each
/// `\n` and not producing a final empty line for a trailing newline.
pub open spec fn lines_rec(s: Seq<char>, cur: Seq<char>, acc: Seq<Seq<char>>) -> Seq<Seq<char>>
    decreases s.len(),
{
    if s.len() == 0 {
        if cur.len() == 0 {
            acc
        } else {
            acc.push(cur)
        }
    } else if s[0] == '\n' {
        let done = if cur.len() > 0 && cur.last() == '\r' {
            cur.drop_last()
        } else {
            cur
        };
        lines_rec(s.skip(1), Seq::empty(), acc.push(done))
    } else {
        lines_rec(s.skip(1), cur.push(s[0]), acc)
    }
}

/// The logical lines of a text.
pub open spec fn lines_of(s: Seq<char>) -> Seq<Seq<char>> {
    lines_rec(s, Seq::empty(), Seq::empty())
}

proof fn lemma_plain_all_push(lines: Seq<Seq<char>>, l: Seq<char>)
    ensures
        plain_all(lines.push(l)) == plain_all(lines) + plain_chars(l),
{
    assert(lines.push(l).drop_last() =~= lines);
    assert(lines.push(l).last() == l);
}

/// The styled characters of a whole text: each logical line interpreted
/// under the style the previous lines left in force.
pub open spec fn text_pairs(st: Style, lines: Seq<Seq<char>>) -> Seq<(char, Style)>
    decreases lines.len(),
{
    if lines.len() == 0 {
        Seq::empty()
    } else {
        char_styles(st, lines[0], 0) + text_pairs(style_after(st, lines[0]), lines.skip(1))
    }
}

/// The style in force after a sequence of logical lines.
pub open spec fn style_thread(st: Style, lines: Seq<Seq<char>>) -> Style
    decreases lines.len(),
{
    if lines.len() == 0 {
        st
    } else {
        style_thread(style_after(st, lines[0]), lines.skip(1))
    }
}

proof fn lemma_style_thread_push(st: Style, lines: Seq<Seq<char>>, l: Seq<char>)
    ensures
        style_thread(st, lines.push(l)) == style_after(style_thread(st, lines), l),
    decreases lines.len(),
{
    if lines.len() == 0 {
        assert(lines.push(l)[0] == l);
        assert(lines.push(l).skip(1) =~= Seq::<Seq<char>>::empty());
        assert(style_thread(style_after(st, l), Seq::<Seq<char>>::empty()) == style_after(st, l));
        assert(style_thread(st, lines) == st);
    } else {
        assert(lines.push(l)[0] == lines[0]);
        assert(lines.push(l).skip(1) =~= lines.skip(1).push(l));
        lemma_style_thread_push(style_after(st, lines[0]), lines.skip(1), l);
        assert(style_thread(st, lines.push(l)) == style_thread(
            style_after(st, lines[0]),
            lines.skip(1).push(l),
        ));
        assert(style_thread(st, lines) == style_thread(style_after(st, lines[0]), lines.skip(1)));
    }
}

proof fn lemma_text_pairs_push(st: Style, lines: Seq<Seq<char>>, l: Seq<char>)
    ensures
        text_pairs(st, lines.push(l)) == text_pairs(st, lines) + char_styles(
            style_thread(st, lines),
            l,
            0,
        ),
    decreases lines.len(),
{
    if lines.len() == 0 {
        assert(lines.push(l)[0] == l);
        assert(lines.push(l).skip(1) =~= Seq::<Seq<char>>::empty());
        assert(text_pairs(style_after(st, l), Seq::<Seq<char>>::empty()) =~= Seq::<
            (char, Style),
        >::empty());
        assert(text_pairs(st, lines.push(l)) =~= char_styles(st, l, 0));
        assert(style_thread(st, lines) == st);
        assert(text_pairs(st, lines) + char_styles(style_thread(st, lines), l, 0) =~= char_styles(
            st,
            l,
            0,
        ));
    } else {
        assert(lines.push(l)[0] == lines[0]);
        assert(lines.push(l).skip(1) =~= lines.skip(1).push(l));
        lemma_text_pairs_push(style_after(st, lines[0]), lines.skip(1), l);
        assert(char_styles(st, lines[0], 0) + (text_pairs(style_after(st, lines[0]), lines.skip(1))
            + char_styles(style_thread(st, lines), l, 0)) =~= (char_styles(st, lines[0], 0)
            + text_pairs(style_after(st, lines[0]), lines.skip(1))) + char_styles(
            style_thread(st, lines),
            l,
            0,
        ));
    }
}

// ---------------------------------------------------------------------------
// The converter
// ---------------------------------------------------------------------------

/// How many display lines a text wraps to: each logical line contributes
/// one line per full width budget, plus one for the remainder.
pub open spec fn wrapped_total(lines: Seq<Seq<char>>, max: int) -> int
    decreases lines.len(),
{
    if lines.len() == 0 {
        0
    } else {
        wrapped_total(lines.drop_last(), max) + plain_chars(lines.last()).len() as int / max + 1
    }
}

proof fn lemma_wrapped_total_push(lines: Seq<Seq<char>>, l: Seq<char>, max: int)
    ensures
        wrapped_total(lines.push(l), max) == wrapped_total(lines, max) + plain_chars(
            l,
        ).len() as int / max + 1,
{
    assert(lines.push(l).drop_last() =~= lines);
    assert(lines.push(l).last() == l);
}

/// Turns raw text that may carry SGR escape sequences into styled display
/// lines, hard-wrapped at `max` printable characters (no wrapping when
/// `max` is 0). Styles persist across lines; malformed or unterminated
/// escapes never fail the conversion, they are dropped.
pub fn str_to_text(s: &str, max: usize) -> (r: StyledText)
    ensures
        lines_text(r.lines@) == plain_all(lines_of(s@)),
        lines_pairs(r.lines@) == text_pairs(spec_default_style(), lines_of(s@)),
        max > 0 ==> forall|li: int|
            0 <= li < r.lines@.len() ==> line_text(#[trigger] r.lines@[li]).len() <= max,
        // one display line per logical line when nothing wraps, and the
        // exact wrapped count otherwise
        max == 0 ==> r.lines@.len() == lines_of(s@).len(),
        max > 0 ==> r.lines@.len() == wrapped_total(lines_of(s@), max as int),
        // spans are in normal form: non-empty, adjacent styles distinct
        forall|li: int| 0 <= li < r.lines@.len() ==> wf_spans((#[trigger] r.lines@[li]).spans@),
{
    let chars = to_chars(s);
    let n = chars.len();
    let mut out: Vec<Line> = Vec::new();
    let mut cur: Vec<char> = Vec::new();
    let mut style = Style::plain();
    let ghost mut done: Seq<Seq<char>> = Seq::empty();
    let mut i: usize = 0;
    proof {
        assert(s@.skip(0) =~= s@);
        assert(cur@ =~= Seq::<char>::empty());
        assert(lines_text(out@) =~= plain_all(done));
        assert(lines_pairs(out@) =~= text_pairs(spec_default_style(), done));
    }
    while i < n
        invariant
            n == chars@.len(),
            chars@ == s@,
            i <= n,
            lines_rec(s@.skip(i as int), cur@, done) == lines_of(s@),
            lines_text(out@) == plain_all(done),
            lines_pairs(out@) == text_pairs(spec_default_style(), done),
            style == style_thread(spec_default_style(), done),
            max == 0 ==> out@.len() == done.len(),
            max > 0 ==> out@.len() == wrapped_total(done, max as int),
            max > 0 ==> forall|li: int|
                0 <= li < out@.len() ==> line_text(#[trigger] out@[li]).len() <= max,
            forall|li: int| 0 <= li < out@.len() ==> wf_spans((#[trigger] out@[li]).spans@),
        decreases n - i,
    {
        let ghost pre_s = s@.skip(i as int);
        let ghost pre_cur = cur@;
        let ghost pre_done = done;
        let c = chars[i];
        proof {
            assert(pre_s[0] == s@[i as int]);
            assert(pre_s.skip(1) =~= s@.skip(i as int + 1));
        }
        if c == '\n' {
            // close the logical line, dropping a trailing carriage return
            if cur.len() > 0 && cur[cur.len() - 1] == '\r' {
                cur.pop();
                proof {
                    assert(cur@ =~= pre_cur.drop_last());
                }
            }
            let ghost pre_style = style;
            let (mut ls, st2) = convert_line(&cur, style, max);
            style = st2;
            proof {
                done = done.push(cur@);
                lemma_plain_all_push(pre_done, cur@);
                lemma_text_pairs_push(spec_default_style(), pre_done, cur@);
                lemma_style_thread_push(spec_default_style(), pre_done, cur@);
            }
            let mut k: usize = 0;
            let ghost lsv = ls@;
            let ghost pre_count = out@.len();
            let lslen = ls.len();
            proof {
                assert(lsv.len() == lslen);
            }
            while ls.len() > 0
                invariant
                    lsv.len() <= usize::MAX,
                    k + ls@.len() == lsv.len(),
                    ls@ == lsv.skip(k as int),
                    out@.len() == pre_count + k,
                    lines_text(out@) == plain_all(pre_done) + lines_text(lsv.take(k as int)),
                    lines_pairs(out@) == text_pairs(spec_default_style(), pre_done) + lines_pairs(
                        lsv.take(k as int),
                    ),
                    max > 0 ==> forall|li: int|
                        0 <= li < out@.len() ==> line_text(#[trigger] out@[li]).len() <= max,
                    max > 0 ==> forall|li: int|
                        0 <= li < lsv.len() ==> line_text(#[trigger] lsv[li]).len() <= max,
                    forall|li: int|
                        0 <= li < out@.len() ==> wf_spans((#[trigger] out@[li]).spans@),
                    forall|li: int| 0 <= li < lsv.len() ==> wf_spans((#[trigger] lsv[li]).spans@),
                decreases ls@.len(),
            {
                let ghost pre_out = out@;
                let l = ls.remove(0);
                proof {
                    assert(l == lsv[k as int]);
                    assert(ls@ =~= lsv.skip(k as int + 1));
                }
                out.push(l);
                k = k + 1;
                proof {
                    lemma_lines_text_push(pre_out, l);
                    lemma_lines_pairs_push(pre_out, l);
                    assert(lsv.take(k as int).drop_last() =~= lsv.take(k as int - 1));
                    assert(lsv.take(k as int).last() == lsv[k as int - 1]);
                }
            }
            proof {
                assert(lsv.take(k as int) =~= lsv);
                assert(lines_text(out@) == plain_all(done));
                assert(lines_pairs(out@) == text_pairs(spec_default_style(), done));
                if max > 0 {
                    lemma_wrapped_total_push(pre_done, cur@, max as int);
                }
            }
            cur = Vec::new();
            proof {
                assert(cur@ =~= Seq::<char>::empty());
            }
        } else {
            cur.push(c);
        }
        i = i + 1;
    }
    proof {
        assert(s@.skip(n as int) =~= Seq::<char>::empty());
    }
    if cur.len() > 0 {
        let ghost pre_done = done;
        let (mut ls, _st) = convert_line(&cur, style, max);
        proof {
            done = done.push(cur@);
            lemma_plain_all_push(pre_done, cur@);
            lemma_text_pairs_push(spec_default_style(), pre_done, cur@);
        }
        let mut k: usize = 0;
        let ghost lsv = ls@;
        let ghost pre_count = out@.len();
        let lslen = ls.len();
        proof {
            assert(lsv.len() == lslen);
        }
        while ls.len() > 0
            invariant
                lsv.len() <= usize::MAX,
                k + ls@.len() == lsv.len(),
                ls@ == lsv.skip(k as int),
                out@.len() == pre_count + k,
                lines_text(out@) == plain_all(pre_done) + lines_text(lsv.take(k as int)),
                lines_pairs(out@) == text_pairs(spec_default_style(), pre_done) + lines_pairs(
                    lsv.take(k as int),
                ),
                max > 0 ==> forall|li: int|
                    0 <= li < out@.len() ==> line_text(#[trigger] out@[li]).len() <= max,
                max > 0 ==> forall|li: int|
                    0 <= li < lsv.len() ==> line_text(#[trigger] lsv[li]).len() <= max,
                forall|li: int|
                    0 <= li < out@.len() ==> wf_spans((#[trigger] out@[li]).spans@),
                forall|li: int| 0 <= li < lsv.len() ==> wf_spans((#[trigger] lsv[li]).spans@),
            decreases ls@.len(),
        {
            let ghost pre_out = out@;
            let l = ls.remove(0);
            proof {
                assert(l == lsv[k as int]);
                assert(ls@ =~= lsv.skip(k as int + 1));
            }
            out.push(l);
            k = k + 1;
            proof {
                lemma_lines_text_push(pre_out, l);
                lemma_lines_pairs_push(pre_out, l);
                assert(lsv.take(k as int).drop_last() =~= lsv.take(k as int - 1));
                assert(lsv.take(k as int).last() == lsv[k as int - 1]);
            }
        }
        proof {
            assert(lsv.take(k as int) =~= lsv);
            assert(lines_text(out@) == plain_all(done));
            assert(lines_pairs(out@) == text_pairs(spec_default_style(), done));
            if max > 0 {
                lemma_wrapped_total_push(pre_done, cur@, max as int);
            }
        }
    }
    proof {
        assert(done == lines_of(s@));
    }
    StyledText { lines: out }
}

} // verus!
