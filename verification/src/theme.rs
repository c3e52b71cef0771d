//! Colors and the small drawing helpers that give the app one consistent look.
//!
//! Everything visual that is not a widget lives here: the palette, styled
//! texts and how wide they are on the screen, the two progress bars
//! (determinate and not), and the size, rate and duration texts that the rows
//! print.

use vstd::prelude::*;

use crate::number;
use crate::text;

verus! {

// ---- palette ----------------------------------------------------------------------

/// A color of the palette, chosen to sit well on a dark terminal. Body text
/// keeps the terminal's own foreground.
#[derive(Debug, Clone, Copy, PartialEq, Eq, Structural)]
pub enum Tone {
    /// Primary accent: focus rings, the active tab, in-flight work.
    Accent,
    /// Accent for something finished or currently selected.
    AccentBright,
    /// Success: a file that landed on disk.
    Good,
    /// In progress, or needing attention but not broken.
    Warn,
    /// Failures.
    Bad,
    /// Secondary text: hints, sizes, anything that should recede.
    Muted,
    /// Even quieter: progress-bar troughs, inactive borders.
    Faint,
    /// Source tags.
    Violet,
    /// Formats and other neutral metadata.
    Blue,
    /// Background behind the selected row.
    SelectionBg,
    /// Foreground for text sitting on an accent background.
    OnAccent,
}

impl Tone {
    /// The color in red, green and blue.
    pub open spec fn color(self) -> (u8, u8, u8) {
        match self {
            Tone::Accent => (86, 182, 194),
            Tone::AccentBright => (127, 219, 232),
            Tone::Good => (152, 195, 121),
            Tone::Warn => (229, 192, 123),
            Tone::Bad => (224, 108, 117),
            Tone::Muted => (120, 130, 148),
            Tone::Faint => (72, 80, 94),
            Tone::Violet => (198, 120, 221),
            Tone::Blue => (97, 175, 239),
            Tone::SelectionBg => (44, 51, 64),
            Tone::OnAccent => (22, 26, 33),
        }
    }

    /// The color in red, green and blue.
    pub fn rgb(self) -> (r: (u8, u8, u8))
        ensures
            r == self.color(),
    {
        match self {
            Tone::Accent => (86, 182, 194),
            Tone::AccentBright => (127, 219, 232),
            Tone::Good => (152, 195, 121),
            Tone::Warn => (229, 192, 123),
            Tone::Bad => (224, 108, 117),
            Tone::Muted => (120, 130, 148),
            Tone::Faint => (72, 80, 94),
            Tone::Violet => (198, 120, 221),
            Tone::Blue => (97, 175, 239),
            Tone::SelectionBg => (44, 51, 64),
            Tone::OnAccent => (22, 26, 33),
        }
    }
}

/// Left edge of the selected row, so the eye catches it without a full bar.
pub const CURSOR: &'static str = "▎";

/// How a text is drawn. Without a color the terminal's own is used.
#[derive(Debug, Clone, Copy, PartialEq, Eq, Structural)]
pub struct Style {
    pub fg: Option<Tone>,
    pub bg: Option<Tone>,
    pub bold: bool,
}

impl Style {
    pub open spec fn plain_spec() -> Style {
        Style { fg: None, bg: None, bold: false }
    }

    pub open spec fn of_spec(tone: Tone) -> Style {
        Style { fg: Some(tone), bg: None, bold: false }
    }

    pub open spec fn strong_spec(tone: Tone) -> Style {
        Style { fg: Some(tone), bg: None, bold: true }
    }

    /// The terminal's own colors.
    #[verifier::when_used_as_spec(plain_spec)]
    pub fn plain() -> (r: Style)
        ensures
            r == Style::plain(),
    {
        Style { fg: None, bg: None, bold: false }
    }

    /// Text in `tone`.
    #[verifier::when_used_as_spec(of_spec)]
    pub fn of(tone: Tone) -> (r: Style)
        ensures
            r == Style::of(tone),
    {
        Style { fg: Some(tone), bg: None, bold: false }
    }

    /// Bold text in `tone`.
    #[verifier::when_used_as_spec(strong_spec)]
    pub fn strong(tone: Tone) -> (r: Style)
        ensures
            r == Style::strong(tone),
    {
        Style { fg: Some(tone), bg: None, bold: true }
    }
}

// ---- styled texts -----------------------------------------------------------------

/// A text with its style.
#[derive(Debug)]
pub struct Span {
    pub content: String,
    pub style: Style,
}

/// The mathematical counterpart of [`Span`].
#[verifier::ext_equal]
pub struct SpanView {
    pub content: Seq<char>,
    pub style: Style,
}

impl View for Span {
    type V = SpanView;

    open spec fn view(&self) -> SpanView {
        SpanView { content: self.content@, style: self.style }
    }
}

/// What a run of spans holds.
pub open spec fn spans_view(list: Seq<Span>) -> Seq<SpanView> {
    Seq::new(list.len(), |i: int| list[i]@)
}

pub broadcast proof fn lemma_spans_push(list: Seq<Span>, span: Span)
    ensures
        #[trigger] spans_view(list.push(span)) == spans_view(list).push(span@),
{
    assert(spans_view(list.push(span)) =~= spans_view(list).push(span@));
}

pub broadcast proof fn lemma_spans_empty(list: Seq<Span>)
    requires
        list.len() == 0,
    ensures
        #[trigger] spans_view(list) == Seq::<SpanView>::empty(),
{
    assert(spans_view(list) =~= Seq::<SpanView>::empty());
}

/// A text with a style.
pub open spec fn styled_view(content: Seq<char>, style: Style) -> SpanView {
    SpanView { content, style }
}

/// A text with a style.
pub fn styled(content: String, style: Style) -> (r: Span)
    ensures
        r@ == styled_view(content@, style),
{
    Span { content, style }
}

/// Dimmed hint text, e.g. the key legends along the bottom of a list.
pub fn hint(text: &str) -> (r: Span)
    ensures
        r@ == styled_view(text@, Style::of(Tone::Muted)),
{
    styled(text.to_owned(), Style::of(Tone::Muted))
}

/// A key name inside a hint legend.
pub fn key(text: &str) -> (r: Span)
    ensures
        r@ == styled_view(text@, Style::strong(Tone::Accent)),
{
    styled(text.to_owned(), Style::strong(Tone::Accent))
}

// ---- how wide a text is -----------------------------------------------------------

/// A character that always takes one cell: printable ASCII, a block element or
/// the ellipsis.
pub open spec fn is_plain(c: char) -> bool {
    ||| 0x20 <= c as u32 <= 0x7e
    ||| 0x2580 <= c as u32 <= 0x259f
    ||| c as u32 == 0x2026
}

/// All characters of the text take one cell each.
pub open spec fn all_plain(s: Seq<char>) -> bool {
    forall|i: int| 0 <= i < s.len() ==> is_plain(#[trigger] s[i])
}

/// The display width of a text with other characters than the plain ones, as
/// the terminal library measures it.
pub uninterp spec fn measured(content: Seq<char>) -> nat;

/// How many cells a text takes on the screen.
pub open spec fn cells(content: Seq<char>) -> nat {
    if all_plain(content) {
        content.len()
    } else {
        measured(content)
    }
}

/// `ratatui::text::Span::width` of an unstyled span: the display width of the
/// text, by the rules of the crate `unicode_width`. A text of plain characters
/// takes one cell for each of them; of any other text it is claimed only that
/// the width depends on nothing but the text.
#[verifier::external_body]
pub(crate) fn text_cells(content: &str) -> (r: usize)
    ensures
        r == cells(content@),
        !all_plain(content@) ==> r == measured(content@),
{
    ratatui::text::Span::raw(content).width()
}

/// The display width of a single character other than a plain one.
pub uninterp spec fn measured_char(c: char) -> Option<nat>;

/// How many cells a single character takes; none for a control character.
pub open spec fn char_cells(c: char) -> Option<nat> {
    if is_plain(c) {
        Some(1)
    } else {
        measured_char(c)
    }
}

/// The width in an optional one.
pub open spec fn width_in(value: Option<usize>) -> Option<nat> {
    match value {
        Some(n) => Some(n as nat),
        None => None,
    }
}

/// `unicode_width::UnicodeWidthChar::width`: the display width of a character.
/// A plain character takes one cell; of any other it is claimed only that the
/// width depends on nothing but the character.
#[verifier::external_body]
pub(crate) fn char_width(c: char) -> (r: Option<usize>)
    ensures
        width_in(r) == char_cells(c),
        !is_plain(c) ==> width_in(r) == measured_char(c),
{
    unicode_width::UnicodeWidthChar::width(c)
}

/// How many cells a run of spans takes.
pub open spec fn run_cells(spans: Seq<SpanView>) -> nat
    decreases spans.len(),
{
    if spans.len() == 0 {
        0
    } else {
        run_cells(spans.drop_last()) + cells(spans.last().content)
    }
}

/// How many cells a run of spans takes.
pub fn run_width(spans: &Vec<Span>) -> (r: u128)
    ensures
        r == run_cells(spans_view(spans@)),
{
    let ghost all = spans_view(spans@);
    let mut total: u128 = 0;
    let mut i: usize = 0;
    assert(all.take(0) =~= Seq::<SpanView>::empty());
    while i < spans.len()
        invariant
            i <= spans@.len(),
            all == spans_view(spans@),
            total == run_cells(all.take(i as int)),
            total <= i * usize::MAX,
        decreases spans@.len() - i,
    {
        assert(all.take(i + 1).drop_last() =~= all.take(i as int));
        assert(all.take(i + 1).last() == spans@[i as int]@);
        let width: usize = text_cells(spans[i].content.as_str());
        assert(i * usize::MAX + usize::MAX == (i + 1) * usize::MAX) by (nonlinear_arith);
        assert((i + 1) * usize::MAX <= usize::MAX * usize::MAX) by (nonlinear_arith)
            requires
                i + 1 <= usize::MAX,
        ;
        assert(usize::MAX * usize::MAX <= u128::MAX) by (nonlinear_arith)
            requires
                usize::MAX <= 0xffff_ffff_ffff_ffff,
        ;
        total = total + width as u128;
        i += 1;
    }
    assert(all.take(i as int) =~= all);
    total
}

// ---- clipping ---------------------------------------------------------------------

/// The cells that the characters of a text take one by one, control characters
/// taking none.
pub open spec fn char_sum(s: Seq<char>) -> nat
    decreases s.len(),
{
    if s.len() == 0 {
        0
    } else {
        char_sum(s.drop_last()) + (match char_cells(s.last()) {
            Some(n) => n,
            None => 0,
        })
    }
}

/// How many characters of `s` fit into `room` cells, given that the first
/// `from` do.
pub open spec fn fitting_chars(s: Seq<char>, room: nat, from: int) -> int
    decreases s.len() - from,
{
    if from >= s.len() || char_sum(s.take(from + 1)) > room {
        from
    } else {
        fitting_chars(s, room, from + 1)
    }
}

/// As much of `s` as fits into `room` cells, and an ellipsis.
pub open spec fn cut(s: Seq<char>, room: nat) -> Seq<char> {
    s.take(fitting_chars(s, room, 0)).push('…')
}

/// How many of the spans fit into `room` cells, given that the first `from` do.
pub open spec fn fitting_spans(spans: Seq<SpanView>, room: nat, from: int) -> int
    decreases spans.len() - from,
{
    if from >= spans.len() || run_cells(spans.take(from + 1)) > room {
        from
    } else {
        fitting_spans(spans, room, from + 1)
    }
}

/// The spans cut down to `width` cells: all of them if they fit, else as much
/// as leaves a cell for the ellipsis, and the ellipsis.
pub open spec fn clipped(spans: Seq<SpanView>, width: nat) -> Seq<SpanView> {
    if run_cells(spans) <= width {
        spans
    } else if width == 0 {
        Seq::empty()
    } else {
        let room = (width - 1) as nat;
        let n = fitting_spans(spans, room, 0);
        spans.take(n).push(
            SpanView {
                content: cut(spans[n].content, (room - run_cells(spans.take(n))) as nat),
                style: spans[n].style,
            },
        )
    }
}

fn cut_text(content: &str, room: u128) -> (r: String)
    ensures
        r@ == cut(content@, room as nat),
{
    let v = text::chars_of(content);
    let mut used: u128 = 0;
    let mut n: usize = 0;
    let mut full = false;
    assert(v@.take(0) =~= Seq::<char>::empty());
    while !full && n < v.len()
        invariant
            v@ == content@,
            n <= v@.len(),
            used == char_sum(v@.take(n as int)),
            used <= room,
            full ==> fitting_chars(v@, room as nat, n as int) == n,
            fitting_chars(v@, room as nat, 0) == fitting_chars(v@, room as nat, n as int),
        decreases 2 * (v@.len() - n) + (if full { 0int } else { 1int }),
    {
        assert(v@.take(n + 1).drop_last() =~= v@.take(n as int));
        assert(v@.take(n + 1).last() == v@[n as int]);
        let width: usize = match char_width(v[n]) {
            Some(width) => width,
            None => 0,
        };
        if width as u128 > room - used {
            full = true;
        } else {
            used = used + width as u128;
            n += 1;
        }
    }
    let mut out = text::slice_text(&v, 0, n);
    assert(v@.subrange(0, n as int) =~= v@.take(n as int));
    out.push('…');
    out
}

/// Cut a run of spans down to `width` display cells, marking the cut with `…`.
///
/// Measured in cells rather than `char`s so wide glyphs in a title cannot push
/// the right-hand column off the edge of the row.
pub fn clip(spans: Vec<Span>, width: usize) -> (r: Vec<Span>)
    ensures
        spans_view(r@) == clipped(spans_view(spans@), width as nat),
{
    clip_wide(spans, width as u128)
}

/// [`clip`] for a width of any size.
pub fn clip_wide(spans: Vec<Span>, width: u128) -> (r: Vec<Span>)
    ensures
        spans_view(r@) == clipped(spans_view(spans@), width as nat),
{
    let ghost all = spans_view(spans@);
    let total: u128 = run_width(&spans);
    if total <= width {
        return spans;
    }
    if width == 0 {
        let none: Vec<Span> = Vec::new();
        assert(spans_view(none@) =~= clipped(all, 0));
        return none;
    }
    let room: u128 = width - 1;
    let mut used: u128 = 0;
    let mut n: usize = 0;
    let mut full = false;
    assert(all.take(0) =~= Seq::<SpanView>::empty());
    while !full && n < spans.len()
        invariant
            n <= spans@.len(),
            all == spans_view(spans@),
            used == run_cells(all.take(n as int)),
            used <= room,
            full ==> n < spans@.len() && fitting_spans(all, room as nat, n as int) == n,
            fitting_spans(all, room as nat, 0) == fitting_spans(all, room as nat, n as int),
        decreases 2 * (spans@.len() - n) + (if full { 0int } else { 1int }),
    {
        assert(all.take(n + 1).drop_last() =~= all.take(n as int));
        assert(all.take(n + 1).last() == spans@[n as int]@);
        let next: usize = text_cells(spans[n].content.as_str());
        if next as u128 > room - used {
            full = true;
        } else {
            used = used + next as u128;
            n += 1;
        }
    }
    proof {
        if n == all.len() {
            assert(all.take(n as int) =~= all);
        }
    }
    let content = cut_text(spans[n].content.as_str(), room - used);
    let style = spans[n].style;
    let mut out = spans;
    out.truncate(n);
    assert(spans_view(out@) =~= all.take(n as int));
    out.push(Span { content, style });
    assert(spans_view(out@) =~= clipped(all, width as nat));
    out
}

/// A text that is no wider, after a cut, than its characters one by one and
/// the ellipsis. Texts with control characters, which take a cell only inside a
/// text, can be wider.
pub open spec fn is_even(s: Seq<char>) -> bool {
    forall|n: int|
        0 <= n <= s.len() ==> cells(#[trigger] s.take(n).push('…')) <= char_sum(s.take(n)) + 1
}

/// All texts of a run are even.
pub open spec fn all_even(spans: Seq<SpanView>) -> bool {
    forall|i: int| 0 <= i < spans.len() ==> is_even((#[trigger] spans[i]).content)
}

proof fn lemma_char_sum_plain(s: Seq<char>)
    requires
        all_plain(s),
    ensures
        char_sum(s) == s.len(),
    decreases s.len(),
{
    if s.len() > 0 {
        lemma_char_sum_plain(s.drop_last());
    }
}

/// A text of plain characters can be cut anywhere.
pub proof fn law_plain_text_is_even(s: Seq<char>)
    requires
        all_plain(s),
    ensures
        is_even(s),
{
    assert forall|n: int| 0 <= n <= s.len() implies cells(#[trigger] s.take(n).push('…'))
        <= char_sum(s.take(n)) + 1 by {
        let kept = s.take(n);
        lemma_char_sum_plain(kept);
        assert(all_plain(kept.push('…')));
    }
}

proof fn lemma_fitting_chars(s: Seq<char>, room: nat, from: int)
    requires
        0 <= from <= s.len(),
        char_sum(s.take(from)) <= room,
    ensures
        from <= fitting_chars(s, room, from) <= s.len(),
        char_sum(s.take(fitting_chars(s, room, from))) <= room,
    decreases s.len() - from,
{
    if from < s.len() && char_sum(s.take(from + 1)) <= room {
        lemma_fitting_chars(s, room, from + 1);
    }
}

proof fn lemma_fitting_spans(spans: Seq<SpanView>, room: nat, from: int)
    requires
        0 <= from <= spans.len(),
        run_cells(spans.take(from)) <= room,
        run_cells(spans) > room,
    ensures
        from <= fitting_spans(spans, room, from) < spans.len(),
        run_cells(spans.take(fitting_spans(spans, room, from))) <= room,
    decreases spans.len() - from,
{
    assert(spans.take(spans.len() as int) =~= spans);
    if from < spans.len() && run_cells(spans.take(from + 1)) <= room {
        lemma_fitting_spans(spans, room, from + 1);
    }
}

/// A clipped run never takes more than the width it was clipped to.
pub proof fn law_clip_fits(spans: Seq<SpanView>, width: nat)
    requires
        all_even(spans),
    ensures
        run_cells(clipped(spans, width)) <= width,
{
    if run_cells(spans) > width && width > 0 {
        let room = (width - 1) as nat;
        assert(spans.take(0) =~= Seq::<SpanView>::empty());
        lemma_fitting_spans(spans, room, 0);
        let n = fitting_spans(spans, room, 0);
        let rest = (room - run_cells(spans.take(n))) as nat;
        let content = spans[n].content;
        assert(content.take(0) =~= Seq::<char>::empty());
        lemma_fitting_chars(content, rest, 0);
        let k = fitting_chars(content, rest, 0);
        assert(cells(content.take(k).push('…')) <= char_sum(content.take(k)) + 1);
        let out = clipped(spans, width);
        assert(out.drop_last() =~= spans.take(n));
        assert(out.last().content == cut(content, rest));
    }
}

/// What fits is left alone.
pub proof fn law_clip_keeps_what_fits(spans: Seq<SpanView>, width: nat)
    requires
        run_cells(spans) <= width,
    ensures
        clipped(spans, width) == spans,
{
}

/// A cut is always marked, unless there is no cell for the mark.
pub proof fn law_clip_marks_the_cut(spans: Seq<SpanView>, width: nat)
    requires
        run_cells(spans) > width,
        width > 0,
    ensures
        clipped(spans, width).len() > 0,
        clipped(spans, width).last().content.last() == '…',
{
}

// ---- bars -------------------------------------------------------------------------

/// The block that fills `eighths` of a cell.
pub open spec fn partial_block(eighths: nat) -> Seq<char> {
    if eighths == 1 {
        seq!['▏']
    } else if eighths == 2 {
        seq!['▎']
    } else if eighths == 3 {
        seq!['▍']
    } else if eighths == 4 {
        seq!['▌']
    } else if eighths == 5 {
        seq!['▋']
    } else if eighths == 6 {
        seq!['▊']
    } else if eighths == 7 {
        seq!['▉']
    } else {
        seq![]
    }
}

fn push_partial(out: &mut String, eighths: usize)
    ensures
        final(out)@ == old(out)@ + partial_block(eighths as nat),
{
    let ghost before = out@;
    if eighths == 1 {
        out.push('▏');
    } else if eighths == 2 {
        out.push('▎');
    } else if eighths == 3 {
        out.push('▍');
    } else if eighths == 4 {
        out.push('▌');
    } else if eighths == 5 {
        out.push('▋');
    } else if eighths == 6 {
        out.push('▊');
    } else if eighths == 7 {
        out.push('▉');
    }
    assert(out@ =~= before + partial_block(eighths as nat));
}

/// How many eighths of a cell are filled: never more than the bar has.
pub open spec fn filled_eighths(eighths: nat, width: nat) -> nat {
    if eighths <= 8 * width {
        eighths
    } else {
        8 * width
    }
}

/// A bar of `width` cells, filled by so many eighths of a cell.
pub open spec fn bar(eighths: nat, width: nat, tone: Tone) -> Seq<SpanView> {
    let filled = filled_eighths(eighths, width);
    let blocks = text::repeated('█', filled / 8) + partial_block(filled % 8);
    seq![
        styled_view(blocks, Style::of(tone)),
        styled_view(
            text::repeated('░', (width - blocks.len()) as nat),
            Style::of(Tone::Faint),
        ),
    ]
}

/// A determinate bar, `width` cells wide.
///
/// Resolution is eight times the cell count: the last filled cell is drawn as
/// a partial block, so a 10-cell bar moves in 80 visible steps instead of 10.
pub fn progress_bar(eighths: usize, width: usize, tone: Tone) -> (r: Vec<Span>)
    ensures
        spans_view(r@) == bar(eighths as nat, width as nat, tone),
{
    let mut full: usize = eighths / 8;
    let mut rest: usize = eighths % 8;
    if full >= width {
        full = width;
        rest = 0;
    }
    let mut filled = text::repeat('█', full);
    push_partial(&mut filled, rest);
    let drawn: usize = if rest > 0 {
        full + 1
    } else {
        full
    };
    let trough = text::repeat('░', width - drawn);
    let mut out: Vec<Span> = Vec::new();
    out.push(styled(filled, Style::of(tone)));
    out.push(styled(trough, Style::of(Tone::Faint)));
    assert(spans_view(out@) =~= bar(eighths as nat, width as nat, tone));
    out
}

proof fn lemma_run_of_two(a: SpanView, b: SpanView)
    ensures
        run_cells(seq![a, b]) == cells(a.content) + cells(b.content),
{
    assert(seq![a, b].drop_last() =~= seq![a]);
    assert(seq![a].drop_last() =~= Seq::<SpanView>::empty());
    reveal_with_fuel(run_cells, 3);
}

proof fn lemma_repeated_cells(c: char, n: nat)
    requires
        is_plain(c),
    ensures
        all_plain(text::repeated(c, n)),
        cells(text::repeated(c, n)) == n,
{
}

/// A bar always takes exactly its width, and cannot fill past it.
pub proof fn law_bar_fills_its_width(eighths: nat, width: nat, tone: Tone)
    ensures
        run_cells(bar(eighths, width, tone)) == width,
        bar(eighths, width, tone)[0].content.len() <= width,
        eighths == 0 ==> bar(eighths, width, tone)[0].content.len() == 0,
        eighths >= 8 * width ==> bar(eighths, width, tone)[0].content == text::repeated(
            '█',
            width,
        ),
{
    let filled = filled_eighths(eighths, width);
    let blocks = text::repeated('█', filled / 8) + partial_block(filled % 8);
    let trough = text::repeated('░', (width - blocks.len()) as nat);
    assert(all_plain(blocks)) by {
        assert forall|i: int| 0 <= i < blocks.len() implies is_plain(#[trigger] blocks[i]) by {
            if i < filled / 8 {
                assert(blocks[i] == '█');
            } else {
                assert(blocks[i] == partial_block(filled % 8)[i - filled / 8]);
            }
        }
    }
    lemma_repeated_cells('░', (width - blocks.len()) as nat);
    lemma_run_of_two(
        styled_view(blocks, Style::of(tone)),
        styled_view(trough, Style::of(Tone::Faint)),
    );
    if eighths >= 8 * width {
        assert(blocks =~= text::repeated('█', width));
    }
}

/// How far the comet of an indeterminate bar travels.
pub open spec fn pulse_span(width: nat) -> nat {
    if width <= 4 {
        1
    } else {
        (width - 3) as nat
    }
}

/// Where the comet is: it walks to the end and back, so the head never jumps.
pub open spec fn pulse_head(frame: nat, width: nat) -> nat {
    let span = pulse_span(width);
    let step = frame % (2 * span);
    if step < span {
        step
    } else {
        (2 * span - step) as nat
    }
}

/// The comet's cells that are inside the bar.
pub open spec fn comet(room: nat, tone: Tone) -> Seq<SpanView> {
    let glyphs = seq![
        styled_view(seq!['▓'], Style::of(tone)),
        styled_view(seq!['█'], Style::of(tone)),
        styled_view(seq!['▓'], Style::of(tone)),
    ];
    if room >= 3 {
        glyphs
    } else {
        glyphs.take(room as int)
    }
}

/// A piece of empty bar, if there is any.
pub open spec fn trough(n: nat) -> Seq<SpanView> {
    if n == 0 {
        seq![]
    } else {
        seq![styled_view(text::repeated('░', n), Style::of(Tone::Faint))]
    }
}

/// An indeterminate bar of `width` cells.
pub open spec fn pulsing(frame: nat, width: nat, tone: Tone) -> Seq<SpanView> {
    if width == 0 {
        seq![]
    } else {
        let head = pulse_head(frame, width);
        let tail: nat = if head + 3 < width {
            (width - head - 3) as nat
        } else {
            0
        };
        trough(head) + comet((width - head) as nat, tone) + trough(tail)
    }
}

/// An indeterminate bar: a short comet sweeping back and forth.
///
/// Used when the server sends no `Content-Length`, so there is a real
/// distinction on screen between "5% done" and "size unknown".
pub fn pulse(frame: u64, width: usize, tone: Tone) -> (r: Vec<Span>)
    requires
        2 * pulse_span(width as nat) <= usize::MAX,
    ensures
        spans_view(r@) == pulsing((frame as usize) as nat, width as nat, tone),
{
    broadcast use lemma_spans_push;

    let mut out: Vec<Span> = Vec::new();
    assert(spans_view(out@) =~= seq![]);
    if width == 0 {
        return out;
    }
    let span: usize = if width <= 4 {
        1
    } else {
        width - 3
    };
    let cycle: usize = span * 2;
    let step: usize = (frame as usize) % cycle;
    let head: usize = if step < span {
        step
    } else {
        cycle - step
    };
    assert(head == pulse_head((frame as usize) as nat, width as nat));
    if head > 0 {
        out.push(styled(text::repeat('░', head), Style::of(Tone::Faint)));
    }
    assert(spans_view(out@) =~= trough(head as nat));
    let room: usize = width - head;
    if room > 0 {
        out.push(styled(text::repeat('▓', 1), Style::of(tone)));
    }
    if room > 1 {
        out.push(styled(text::repeat('█', 1), Style::of(tone)));
    }
    if room > 2 {
        out.push(styled(text::repeat('▓', 1), Style::of(tone)));
    }
    assert(text::repeated('▓', 1) =~= seq!['▓']);
    assert(text::repeated('█', 1) =~= seq!['█']);
    assert(spans_view(out@) =~= trough(head as nat) + comet(room as nat, tone));
    let ghost before = spans_view(out@);
    if room > 3 {
        out.push(styled(text::repeat('░', room - 3), Style::of(Tone::Faint)));
        assert(spans_view(out@) =~= before + trough((room - 3) as nat));
    } else {
        assert(spans_view(out@) =~= before + trough(0));
    }
    out
}

proof fn lemma_run_joined(a: Seq<SpanView>, b: Seq<SpanView>)
    ensures
        run_cells(a + b) == run_cells(a) + run_cells(b),
    decreases b.len(),
{
    if b.len() == 0 {
        assert(a + b =~= a);
    } else {
        assert((a + b).drop_last() =~= a + b.drop_last());
        lemma_run_joined(a, b.drop_last());
    }
}

proof fn lemma_trough_cells(n: nat)
    ensures
        run_cells(trough(n)) == n,
{
    lemma_repeated_cells('░', n);
    if n > 0 {
        assert(trough(n).drop_last() =~= Seq::<SpanView>::empty());
        reveal_with_fuel(run_cells, 2);
    }
}

proof fn lemma_comet_cells(room: nat, tone: Tone)
    ensures
        run_cells(comet(room, tone)) == (if room >= 3 {
            3
        } else {
            room
        }),
    decreases room,
{
    let shape = comet(room, tone);
    if room >= 3 {
        assert(shape.drop_last() =~= comet(2, tone));
        lemma_comet_cells(2, tone);
    } else if room > 0 {
        assert(shape.drop_last() =~= comet((room - 1) as nat, tone));
        lemma_comet_cells((room - 1) as nat, tone);
    }
    assert(all_plain(seq!['▓']));
    assert(all_plain(seq!['█']));
}

/// The sweep always takes exactly its width and never runs off either end.
pub proof fn law_pulse_fills_its_width(frame: nat, width: nat, tone: Tone)
    ensures
        run_cells(pulsing(frame, width, tone)) == width,
        width == 0 ==> pulsing(frame, width, tone).len() == 0,
        width > 0 ==> pulse_head(frame, width) <= width,
{
    if width > 0 {
        let span = pulse_span(width);
        assert(frame % (2 * span) < 2 * span);
        let head = pulse_head(frame, width);
        let tail: nat = if head + 3 < width {
            (width - head - 3) as nat
        } else {
            0
        };
        lemma_run_joined(trough(head), comet((width - head) as nat, tone));
        lemma_run_joined(trough(head) + comet((width - head) as nat, tone), trough(tail));
        lemma_trough_cells(head);
        lemma_trough_cells(tail);
        lemma_comet_cells((width - head) as nat, tone);
    }
}

/// The texts of a run, one after the other.
pub open spec fn run_text(spans: Seq<SpanView>) -> Seq<char>
    decreases spans.len(),
{
    if spans.len() == 0 {
        seq![]
    } else {
        run_text(spans.drop_last()) + spans.last().content
    }
}

proof fn lemma_text_joined(a: Seq<SpanView>, b: Seq<SpanView>)
    ensures
        run_text(a + b) == run_text(a) + run_text(b),
    decreases b.len(),
{
    if b.len() == 0 {
        assert(a + b =~= a);
        assert(run_text(a) + run_text(b) =~= run_text(a));
    } else {
        assert((a + b).drop_last() =~= a + b.drop_last());
        lemma_text_joined(a, b.drop_last());
        assert(run_text(a + b) =~= run_text(a) + run_text(b));
    }
}

proof fn lemma_trough_text(n: nat)
    ensures
        run_text(trough(n)) == text::repeated('░', n),
{
    if n == 0 {
        assert(text::repeated('░', 0) =~= seq![]);
    } else {
        assert(trough(n).drop_last() =~= Seq::<SpanView>::empty());
        reveal_with_fuel(run_text, 2);
        assert(run_text(trough(n)) =~= text::repeated('░', n));
    }
}

/// Where there is room for it, the comet is always whole: empty bar up to its
/// head, the comet, and empty bar to the end.
pub proof fn law_pulse_shows_the_comet(frame: nat, width: nat, tone: Tone)
    requires
        width >= 4,
    ensures
        pulse_head(frame, width) + 3 <= width,
        run_text(pulsing(frame, width, tone)) == text::repeated('░', pulse_head(frame, width))
            + seq!['▓', '█', '▓'] + text::repeated(
            '░',
            (width - 3 - pulse_head(frame, width)) as nat,
        ),
{
    let span = pulse_span(width);
    assert(frame % (2 * span) < 2 * span);
    let head = pulse_head(frame, width);
    let whole = comet((width - head) as nat, tone);
    let tail = (width - 3 - head) as nat;
    lemma_text_joined(trough(head), whole);
    lemma_text_joined(trough(head) + whole, trough(tail));
    lemma_trough_text(head);
    lemma_trough_text(tail);
    assert(whole.drop_last().drop_last().drop_last() =~= Seq::<SpanView>::empty());
    reveal_with_fuel(run_text, 4);
    assert(run_text(whole) =~= seq!['▓', '█', '▓']);
}

/// The head never jumps: from frame to frame it moves by exactly one cell.
pub proof fn law_pulse_never_jumps(frame: nat, width: nat)
    requires
        width > 0,
    ensures
        pulse_head(frame + 1, width) == pulse_head(frame, width) + 1 || pulse_head(
            frame + 1,
            width,
        ) == pulse_head(frame, width) - 1,
{
    let span = pulse_span(width) as int;
    let cycle = 2 * span;
    let f = frame as int;
    vstd::arithmetic::div_mod::lemma_add_mod_noop(f, 1, cycle);
    let step = f % cycle;
    assert(0 <= step < cycle);
    if step + 1 < cycle {
        if cycle > 1 {
            vstd::arithmetic::div_mod::lemma_small_mod(1, cycle as nat);
        }
        vstd::arithmetic::div_mod::lemma_small_mod((step + 1) as nat, cycle as nat);
    } else {
        vstd::arithmetic::div_mod::lemma_small_mod(1, cycle as nat);
        assert(step + 1 == cycle);
        vstd::arithmetic::div_mod::lemma_mod_self_0(cycle);
    }
}

// ---- sizes, rates and durations ---------------------------------------------------

/// The shortest time, in nanoseconds, over which a rate is measured.
pub const SHORTEST: u128 = 300_000_000;

/// The rate of `bytes` in `elapsed` nanoseconds, with `speed` for the bytes in
/// a second.
pub open spec fn rate_text(bytes: u64, elapsed: u128, speed: Seq<char>) -> Seq<char> {
    if elapsed < SHORTEST || bytes == 0 {
        "--"@
    } else {
        speed + "/s"@
    }
}

/// `1.2 MB/s`, or `--` before enough has arrived to measure.
pub fn rate(bytes: u64, elapsed: u128, speed: &str) -> (r: String)
    ensures
        r@ == rate_text(bytes, elapsed, speed@),
{
    if elapsed < SHORTEST || bytes == 0 {
        return "--".to_owned();
    }
    let mut out = speed.to_owned();
    out.append("/s");
    out
}

/// The longest time, in seconds, that is shown.
pub const LONGEST: u64 = 359_999;

/// A number of seconds, as minutes and seconds or with the hours before them.
pub open spec fn clock(seconds: nat) -> Seq<char> {
    if seconds / 3600 == 0 {
        number::decimal(seconds / 60) + ":"@ + number::two_digits(seconds % 60)
    } else {
        number::decimal(seconds / 3600) + ":"@ + number::two_digits((seconds / 60) % 60) + ":"@
            + number::two_digits(seconds % 60)
    }
}

/// The remaining time is too long to be shown.
pub open spec fn too_long(remaining: u64, partial: bool) -> bool {
    remaining > LONGEST || (remaining == LONGEST && partial)
}

/// The time that a download still takes.
pub open spec fn eta_text(
    seen: u64,
    total: u64,
    elapsed: u128,
    remaining: u64,
    partial: bool,
) -> Seq<char> {
    if elapsed < SHORTEST || seen == 0 || total <= seen || too_long(remaining, partial) {
        "--:--"@
    } else {
        clock(remaining as nat)
    }
}

/// `0:42`, or `--:--` when the remaining time cannot be estimated yet.
/// `remaining` are the whole seconds that are left, `partial` tells whether
/// there is a fraction of a second more.
pub fn eta(seen: u64, total: u64, elapsed: u128, remaining: u64, partial: bool) -> (r: String)
    ensures
        r@ == eta_text(seen, total, elapsed, remaining, partial),
{
    if elapsed < SHORTEST || seen == 0 || total <= seen {
        return "--:--".to_owned();
    }
    if remaining > LONGEST || (remaining == LONGEST && partial) {
        return "--:--".to_owned();
    }
    let hours: u64 = remaining / 3600;
    if hours == 0 {
        let mut out = number::to_decimal(remaining / 60);
        out.append(":");
        out.append(number::to_two_digits(remaining % 60).as_str());
        out
    } else {
        let mut out = number::to_decimal(hours);
        out.append(":");
        out.append(number::to_two_digits((remaining / 60) % 60).as_str());
        out.append(":");
        out.append(number::to_two_digits(remaining % 60).as_str());
        out
    }
}

/// A decimal unit of size.
#[derive(Debug, Clone, Copy, PartialEq, Eq, Structural)]
pub enum SizeUnit {
    Gigabytes,
    Megabytes,
    Kilobytes,
}

impl SizeUnit {
    pub open spec fn bytes_spec(self) -> u64 {
        match self {
            SizeUnit::Gigabytes => 1_000_000_000,
            SizeUnit::Megabytes => 1_000_000,
            SizeUnit::Kilobytes => 1_000,
        }
    }

    /// How many bytes the unit stands for.
    #[verifier::when_used_as_spec(bytes_spec)]
    pub fn bytes(self) -> (r: u64)
        ensures
            r == self.bytes(),
    {
        match self {
            SizeUnit::Gigabytes => 1_000_000_000,
            SizeUnit::Megabytes => 1_000_000,
            SizeUnit::Kilobytes => 1_000,
        }
    }

    /// The name of the unit.
    pub open spec fn label(self) -> Seq<char> {
        match self {
            SizeUnit::Gigabytes => "GB"@,
            SizeUnit::Megabytes => "MB"@,
            SizeUnit::Kilobytes => "kB"@,
        }
    }

    fn name(self) -> (r: &'static str)
        ensures
            r@ == self.label(),
    {
        match self {
            SizeUnit::Gigabytes => "GB",
            SizeUnit::Megabytes => "MB",
            SizeUnit::Kilobytes => "kB",
        }
    }
}

/// The unit in which a size is shown: the largest one that it reaches.
pub open spec fn unit_of(bytes: u64) -> Option<SizeUnit> {
    if bytes >= 1_000_000_000 {
        Some(SizeUnit::Gigabytes)
    } else if bytes >= 1_000_000 {
        Some(SizeUnit::Megabytes)
    } else if bytes >= 1_000 {
        Some(SizeUnit::Kilobytes)
    } else {
        None
    }
}

/// The unit in which a size is shown: the largest one that it reaches.
pub fn size_unit(bytes: u64) -> (r: Option<SizeUnit>)
    ensures
        r == unit_of(bytes),
{
    if bytes >= 1_000_000_000 {
        Some(SizeUnit::Gigabytes)
    } else if bytes >= 1_000_000 {
        Some(SizeUnit::Megabytes)
    } else if bytes >= 1_000 {
        Some(SizeUnit::Kilobytes)
    } else {
        None
    }
}

/// A size, with `quotient` for its number of units.
pub open spec fn size_text(bytes: u64, quotient: Seq<char>) -> Seq<char> {
    match unit_of(bytes) {
        Some(unit) => quotient + " "@ + unit.label(),
        None => number::decimal(bytes as nat) + " B"@,
    }
}

/// A decimal size. `quotient` is the size divided by its unit, to one decimal
/// place; it is not needed below a kilobyte.
pub fn human_size(bytes: u64, quotient: &str) -> (r: String)
    ensures
        r@ == size_text(bytes, quotient@),
{
    match size_unit(bytes) {
        Some(unit) => {
            let mut out = quotient.to_owned();
            out.append(" ");
            out.append(unit.name());
            out
        },
        None => {
            let mut out = number::to_decimal(bytes);
            out.append(" B");
            out
        },
    }
}

// ---- the spinner ------------------------------------------------------------------

/// The symbol of the braille spinner at a place.
pub open spec fn spinner_symbol(place: int) -> char {
    let turn = place % 8;
    if turn == 0 {
        '⣧'
    } else if turn == 1 {
        '⣏'
    } else if turn == 2 {
        '⡟'
    } else if turn == 3 {
        '⠿'
    } else if turn == 4 {
        '⢻'
    } else if turn == 5 {
        '⣹'
    } else if turn == 6 {
        '⣼'
    } else {
        '⣶'
    }
}

/// `throbber_widgets_tui::Throbber::to_symbol_span` for the set
/// `BRAILLE_EIGHT_DOUBLE`, on a state that was stepped to `place`: the symbol
/// at that place of the set, counted round and round, and a space. A step of
/// zero would go to a random place.
#[verifier::external_body]
fn symbol_at(place: i8) -> (r: String)
    requires
        place != 0,
    ensures
        r@ == seq![spinner_symbol(place as int), ' '],
{
    let mut state = throbber_widgets_tui::ThrobberState::default();
    state.calc_step(place);
    throbber_widgets_tui::Throbber::default()
        .throbber_set(throbber_widgets_tui::BRAILLE_EIGHT_DOUBLE)
        .to_symbol_span(&state)
        .content
        .into_owned()
}

/// The place of the spinner after the next tick; it starts over when it gets
/// too large.
pub open spec fn next_place(place: i8) -> i8 {
    if place == i8::MAX {
        0
    } else {
        (place + 1) as i8
    }
}

/// The place of the spinner after the next tick.
pub fn advance(place: i8) -> (r: i8)
    ensures
        r == next_place(place),
{
    if place == i8::MAX {
        0
    } else {
        place + 1
    }
}

/// One frame of the braille spinner, styled.
pub open spec fn spinner(place: i8, style: Style) -> SpanView {
    styled_view(seq![spinner_symbol(place as int), ' '], style)
}

/// One frame of the braille spinner, styled.
pub fn spin(place: i8, style: Style) -> (r: Span)
    ensures
        r@ == spinner(place, style),
{
    let content = if place == 0 {
        symbol_at(8)
    } else {
        symbol_at(place)
    };
    styled(content, style)
}

// ---- laws -------------------------------------------------------------------------

/// The palette.
pub proof fn law_palette(tone: Tone, r: (u8, u8, u8))
    requires
        call_ensures(Tone::rgb, (tone,), r),
    ensures
        tone == Tone::Accent ==> r == (86u8, 182u8, 194u8),
        tone == Tone::AccentBright ==> r == (127u8, 219u8, 232u8),
        tone == Tone::Good ==> r == (152u8, 195u8, 121u8),
        tone == Tone::Warn ==> r == (229u8, 192u8, 123u8),
        tone == Tone::Bad ==> r == (224u8, 108u8, 117u8),
        tone == Tone::Muted ==> r == (120u8, 130u8, 148u8),
        tone == Tone::Faint ==> r == (72u8, 80u8, 94u8),
        tone == Tone::Violet ==> r == (198u8, 120u8, 221u8),
        tone == Tone::Blue ==> r == (97u8, 175u8, 239u8),
        tone == Tone::SelectionBg ==> r == (44u8, 51u8, 64u8),
        tone == Tone::OnAccent ==> r == (22u8, 26u8, 33u8),
{
}

/// Plain text has no color of its own, other text has one color, and strong text
/// is bold besides; none of them has a background.
pub proof fn law_styles(tone: Tone)
    ensures
        Style::plain().fg is None && Style::plain().bg is None && !Style::plain().bold,
        Style::of(tone).fg == Some(tone) && Style::of(tone).bg is None && !Style::of(tone).bold,
        Style::strong(tone).fg == Some(tone) && Style::strong(tone).bg is None && Style::strong(
            tone,
        ).bold,
{
}

/// Hints are dimmed, keys are strong and in the accent color; both say what they
/// are given.
pub proof fn law_hints_and_keys(text: &str, dim: Span, lit: Span)
    requires
        call_ensures(hint, (text,), dim),
        call_ensures(key, (text,), lit),
    ensures
        dim.content@ == text@,
        dim.style == Style::of(Tone::Muted),
        lit.content@ == text@,
        lit.style == Style::strong(Tone::Accent),
{
}

/// The width of a run is the sum of the widths of its texts, and a text of plain
/// characters is as wide as it is long.
pub proof fn law_run_width(spans: Seq<SpanView>, span: SpanView)
    ensures
        run_cells(seq![]) == 0,
        run_cells(spans.push(span)) == run_cells(spans) + cells(span.content),
        all_plain(span.content) ==> cells(span.content) == span.content.len(),
{
    assert(spans.push(span).drop_last() =~= spans);
}

/// Clipping keeps spans from the start on as they are, and of the one that it
/// cuts it keeps the style and the beginning.
pub proof fn law_clip_keeps_the_start(spans: Seq<SpanView>, width: nat)
    requires
        run_cells(spans) > width,
        width > 0,
    ensures
        ({
            let r = clipped(spans, width);
            let n = r.len() - 1;
            let kept = r.last().content.drop_last();
            &&& 0 <= n < spans.len()
            &&& r.take(n) == spans.take(n)
            &&& r.last().style == spans[n].style
            &&& kept.len() <= spans[n].content.len()
            &&& kept == spans[n].content.take(kept.len() as int)
        }),
        clipped(spans, 0).len() == 0,
{
    let room = (width - 1) as nat;
    assert(spans.take(0) =~= Seq::<SpanView>::empty());
    lemma_fitting_spans(spans, room, 0);
    let n = fitting_spans(spans, room, 0);
    let rest = (room - run_cells(spans.take(n))) as nat;
    let content = spans[n].content;
    assert(content.take(0) =~= Seq::<char>::empty());
    lemma_fitting_chars(content, rest, 0);
    let r = clipped(spans, width);
    assert(r.take(n) =~= spans.take(n));
    assert(r.last().content.drop_last() =~= content.take(fitting_chars(content, rest, 0)));
}

proof fn lemma_plain_fits(s: Seq<char>, room: nat, from: int)
    requires
        all_plain(s),
        0 <= from <= room <= s.len(),
    ensures
        fitting_chars(s, room, from) == room,
    decreases room - from,
{
    if from < s.len() {
        let kept = s.take(from + 1);
        assert(all_plain(kept)) by {
            assert forall|i: int| 0 <= i < kept.len() implies is_plain(#[trigger] kept[i]) by {
                assert(kept[i] == s[i]);
            }
        }
        lemma_char_sum_plain(kept);
        if from < room {
            lemma_plain_fits(s, room, from + 1);
        }
    }
}

/// A single text of plain characters that is too long is cut to exactly the
/// width: what fits beside the ellipsis, and the ellipsis.
pub proof fn law_plain_text_is_cut_exactly(span: SpanView, width: nat)
    requires
        all_plain(span.content),
        span.content.len() > width,
        width > 0,
    ensures
        clipped(seq![span], width) == seq![
            SpanView {
                content: span.content.take(width - 1).push('…'),
                style: span.style,
            },
        ],
{
    let spans = seq![span];
    let room = (width - 1) as nat;
    assert(spans.drop_last() =~= Seq::<SpanView>::empty());
    assert(run_cells(spans) == cells(span.content)) by {
        reveal_with_fuel(run_cells, 2);
    }
    assert(spans.take(1) =~= spans);
    assert(spans.take(0) =~= Seq::<SpanView>::empty());
    assert(fitting_spans(spans, room, 0) == 0);
    lemma_plain_fits(span.content, room, 0);
    assert(clipped(spans, width) =~= seq![
        SpanView { content: span.content.take(width - 1).push('…'), style: span.style },
    ]);
}

/// A bar that is not full has a full block for every eight eighths, then the
/// block for the rest where there is one, then empty bar. The blocks for one to
/// seven eighths stand in Unicode in the order of their widths, the widest
/// first.
pub proof fn law_bar_shows_eighths(eighths: nat, width: nat, tone: Tone, i: int)
    requires
        eighths < 8 * width,
    ensures
        ({
            let blocks = bar(eighths, width, tone)[0].content;
            let empty = bar(eighths, width, tone)[1].content;
            let full = (eighths / 8) as int;
            &&& bar(eighths, width, tone).len() == 2
            &&& 0 <= i < full ==> blocks[i] == '█'
            &&& eighths % 8 == 0 ==> blocks.len() == full
            &&& eighths % 8 > 0 ==> blocks.len() == full + 1 && blocks[full] as u32 == 0x2590 - (
            eighths % 8)
            &&& blocks.len() + empty.len() == width
            &&& 0 <= i < empty.len() ==> empty[i] == '░'
            &&& bar(eighths, width, tone)[0].style == Style::of(tone)
            &&& bar(eighths, width, tone)[1].style == Style::of(Tone::Faint)
        }),
{
}

/// What is drawn is the bar for the eighths that are given.
pub proof fn law_progress_bar(eighths: usize, width: usize, tone: Tone, r: Vec<Span>)
    requires
        call_ensures(progress_bar, (eighths, width, tone), r),
    ensures
        spans_view(r@) == bar(eighths as nat, width as nat, tone),
{
}

/// The comet starts at the left end, goes to the right one, and is back where it
/// began after as many frames as it took to get there and back.
pub proof fn law_pulse_goes_and_returns(frame: nat, width: nat)
    requires
        width >= 4,
    ensures
        pulse_head(0, width) == 0,
        frame <= width - 3 ==> pulse_head(frame, width) == frame,
        width - 3 <= frame < 2 * (width - 3) ==> pulse_head(frame, width) == 2 * (width - 3)
            - frame,
        pulse_head(frame + 2 * (width - 3) as nat, width) == pulse_head(frame, width),
{
    let span = pulse_span(width) as int;
    let cycle = 2 * span;
    assert(span == width - 3 || width == 4);
    if frame < cycle {
        vstd::arithmetic::div_mod::lemma_small_mod(frame, cycle as nat);
    }
    vstd::arithmetic::div_mod::lemma_small_mod(0, cycle as nat);
    vstd::arithmetic::div_mod::lemma_mod_add_multiples_vanish(frame as int, cycle);
}

/// A rate is shown once something has arrived and three tenths of a second have
/// passed.
pub proof fn law_rates(bytes: u64, elapsed: u128, speed: &str, r: String)
    requires
        call_ensures(rate, (bytes, elapsed, speed), r),
    ensures
        bytes == 0 || elapsed < 300_000_000 ==> r@ == "--"@,
        bytes > 0 && elapsed >= 300_000_000 ==> r@ == speed@ + "/s"@,
{
}

/// The time that is left is shown in minutes and seconds, with the hours before
/// them where there are any; two digits for all but the first.
pub proof fn law_remaining_time(
    seen: u64,
    total: u64,
    elapsed: u128,
    remaining: u64,
    partial: bool,
    r: String,
    hours: nat,
    minutes: nat,
    seconds: nat,
)
    requires
        call_ensures(eta, (seen, total, elapsed, remaining, partial), r),
        remaining == 3600 * hours + 60 * minutes + seconds,
        minutes < 60,
        seconds < 60,
    ensures
        elapsed < 300_000_000 || seen == 0 || total <= seen ==> r@ == "--:--"@,
        hours >= 100 ==> r@ == "--:--"@,
        remaining == 359_999 && partial ==> r@ == "--:--"@,
        elapsed >= 300_000_000 && 0 < seen < total && hours == 0 ==> r@ == number::decimal(minutes)
            + seq![':'] + number::two_digits(seconds),
        elapsed >= 300_000_000 && 0 < seen < total && 0 < hours < 100 && !(remaining == 359_999
            && partial) ==> r@ == number::decimal(hours) + seq![':'] + number::two_digits(minutes)
            + seq![':'] + number::two_digits(seconds),
{
    reveal_strlit(":");
    assert(":"@ =~= seq![':']);
    let whole = remaining as nat;
    assert(whole / 3600 == hours);
    assert(whole / 60 == 60 * hours + minutes);
    assert((whole / 60) % 60 == minutes) by {
        assert((60 * hours + minutes) % 60 == minutes);
    }
    assert(whole % 60 == seconds);
}

/// Sizes are shown in the largest unit that they reach, and each unit is a
/// thousand of the next; below a thousand bytes are counted.
pub proof fn law_sizes(bytes: u64, unit: Option<SizeUnit>, quotient: &str, r: String)
    requires
        call_ensures(size_unit, (bytes,), unit),
        call_ensures(human_size, (bytes, quotient), r),
    ensures
        bytes < 1000 ==> unit is None && r@ == number::decimal(bytes as nat) + " B"@,
        1000 <= bytes < 1000 * 1000 ==> unit is Some && unit->0.bytes() == 1000 && r@ == quotient@
            + " "@ + "kB"@,
        1000 * 1000 <= bytes < 1000 * 1000 * 1000 ==> unit is Some && unit->0.bytes() == 1000
            * 1000 && r@ == quotient@ + " "@ + "MB"@,
        bytes >= 1000 * 1000 * 1000 ==> unit is Some && unit->0.bytes() == 1000 * 1000 * 1000 && r@
            == quotient@ + " "@ + "GB"@,
{
}

/// What a unit stands for.
pub proof fn law_size_units(unit: SizeUnit, r: u64)
    requires
        call_ensures(SizeUnit::bytes, (unit,), r),
    ensures
        unit == SizeUnit::Kilobytes ==> r == 1000,
        unit == SizeUnit::Megabytes ==> r == 1000 * 1000,
        unit == SizeUnit::Gigabytes ==> r == 1000 * 1000 * 1000,
{
}

/// The spinner has eight pictures, all of them different, and goes from each to
/// the next with every tick; it starts over before it runs out of numbers.
pub proof fn law_spinner_turns(place: i8, next: i8, style: Style, r: Span)
    requires
        call_ensures(advance, (place,), next),
        call_ensures(spin, (place, style), r),
    ensures
        place < i8::MAX ==> next == place + 1,
        place == i8::MAX ==> next == 0,
        r.style == style,
        r.content@.len() == 2,
        r.content@[1] == ' ',
        r.content@[0] == spinner_symbol(place as int),
        spinner_symbol(place + 8) == spinner_symbol(place as int),
        spinner_symbol(place + 1) != spinner_symbol(place as int),
        place == 0 ==> r.content@[0] == '⣧',
        place == 1 ==> r.content@[0] == '⣏',
        place == 2 ==> r.content@[0] == '⡟',
        place == 3 ==> r.content@[0] == '⠿',
        place == 4 ==> r.content@[0] == '⢻',
        place == 5 ==> r.content@[0] == '⣹',
        place == 6 ==> r.content@[0] == '⣼',
        place == 7 ==> r.content@[0] == '⣶',
{
    let p = place as int;
    vstd::arithmetic::div_mod::lemma_mod_add_multiples_vanish(p, 8);
    assert(r@.content == r.content@);
}

/// What is drawn of a run in a width, of a sweep in a frame, and how wide a run
/// is.
pub proof fn law_runs_are_drawn(
    spans: Vec<Span>,
    width: usize,
    r: Vec<Span>,
    cells: u128,
    frame: u64,
    tone: Tone,
    sweep: Vec<Span>,
)
    requires
        call_ensures(clip, (spans, width), r),
        call_ensures(run_width, (&spans,), cells),
        call_ensures(pulse, (frame, width, tone), sweep),
    ensures
        cells == run_cells(spans_view(spans@)),
        cells <= width ==> spans_view(r@) == spans_view(spans@),
        spans_view(r@) == clipped(spans_view(spans@), width as nat),
        spans_view(sweep@) == pulsing((frame as usize) as nat, width as nat, tone),
{
}

/// The comet has a bright middle between two dimmer ends, in the color that is
/// asked for, and the empty bar around it is faint.
pub proof fn law_pulse_is_colored(frame: nat, width: nat, tone: Tone)
    requires
        width >= 4,
        0 < pulse_head(frame, width) < width - 3,
    ensures
        ({
            let r = pulsing(frame, width, tone);
            &&& r.len() == 5
            &&& r[0].style == Style::of(Tone::Faint)
            &&& r[1] == styled_view(seq!['▓'], Style::of(tone))
            &&& r[2] == styled_view(seq!['█'], Style::of(tone))
            &&& r[3] == styled_view(seq!['▓'], Style::of(tone))
            &&& r[4].style == Style::of(Tone::Faint)
        }),
{
}

/// The cursor is a narrow bar.
pub proof fn law_cursor()
    ensures
        CURSOR@ == seq!['▎'],
{
    reveal_strlit("▎");
    assert(CURSOR@ =~= seq!['▎']);
}

} // verus!
