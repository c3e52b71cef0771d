use tui_book_search::app::rows;
use tui_book_search::theme;
use tui_book_search::theme::{Span, Style, Tone};
use unicode_width::UnicodeWidthStr;

fn raw(content: &str) -> Span {
    theme::styled(content.to_string(), Style::plain())
}

fn content(spans: &[Span]) -> String {
    spans.iter().map(|span| span.content.as_str()).collect()
}

fn width(spans: &[Span]) -> usize {
    spans.iter().map(|span| span.content.width()).sum()
}

fn bar(fraction: f64, width: usize) -> Vec<Span> {
    let eighths = (fraction * width as f64 * 8.0).round() as usize;
    theme::progress_bar(eighths, width, Tone::Warn)
}

/// A bar that cannot fill past its width, and reads 0% and 100% exactly.
#[test]
fn progress_bar_stays_within_its_width() {
    for (fraction, expected_full) in [(0.0, 0), (0.5, 5), (1.0, 10)] {
        let spans = bar(fraction, 10);
        let width: usize = width(&spans);
        assert_eq!(width, 10, "fraction {fraction} drew {width} cells");
        assert_eq!(spans[0].content.chars().count(), expected_full);
    }
    // Out-of-range input is clamped rather than overflowing the row.
    let spans = bar(4.2, 10);
    assert_eq!(width(&spans), 10);
}

#[test]
fn progress_bar_moves_in_eighths() {
    let partial = ["", "▏", "▎", "▍", "▌", "▋", "▊", "▉"];
    for eighths in 0..=40 {
        let spans = theme::progress_bar(eighths, 5, Tone::Accent);
        let expected = format!("{}{}", "█".repeat(eighths / 8), partial[eighths % 8]);
        assert_eq!(spans[0].content, expected);
        assert_eq!(width(&spans), 5);
        assert_eq!(spans[0].style, Style::of(Tone::Accent));
        assert_eq!(spans[1].style, Style::of(Tone::Faint));
    }
    assert_eq!(content(&theme::progress_bar(usize::MAX, 2, Tone::Warn)), "██");
    assert_eq!(content(&theme::progress_bar(3, 0, Tone::Warn)), "");
}

/// The sweep never runs off either end of its track.
#[test]
fn pulse_stays_within_its_width() {
    for frame in 0..64 {
        let spans = theme::pulse(frame, 12, Tone::Warn);
        let width: usize = width(&spans);
        assert_eq!(width, 12, "frame {frame} drew {width} cells");
    }
}

#[test]
fn pulse_sweeps_back_and_forth() {
    assert_eq!(content(&theme::pulse(0, 6, Tone::Warn)), "▓█▓░░░");
    assert_eq!(content(&theme::pulse(1, 6, Tone::Warn)), "░▓█▓░░");
    assert_eq!(content(&theme::pulse(3, 6, Tone::Warn)), "░░░▓█▓");
    assert_eq!(content(&theme::pulse(5, 6, Tone::Warn)), "░▓█▓░░");
    assert_eq!(content(&theme::pulse(6, 6, Tone::Warn)), "▓█▓░░░");
    assert!(theme::pulse(3, 0, Tone::Warn).is_empty());
    let head = |frame| {
        let text = content(&theme::pulse(frame, 9, Tone::Warn));
        text.chars().position(|c| c == '▓').unwrap() as i64
    };
    for frame in 0..40 {
        assert_eq!((head(frame + 1) - head(frame)).abs(), 1);
    }
    for width in 1..8 {
        for frame in 0..20 {
            let spans = theme::pulse(frame, width, Tone::Warn);
            assert_eq!(content(&spans).chars().count(), width);
        }
    }
}

/// The right-hand column keeps its place even when the title is too long.
#[test]
fn justify_clips_the_left_side_to_fit() {
    let long = "a".repeat(200);
    let line = rows::justify(vec![raw(&long)], vec![raw("100%")], 40);
    assert_eq!(width(&line), 40);
    assert!(content(&line).ends_with("100%"));
    assert!(content(&line).contains('…'));
}

#[test]
fn justify_fills_the_width() {
    let line = rows::justify(vec![raw("ab")], vec![raw("cd"), raw("e")], 10);
    assert_eq!(content(&line), "ab     cde");
    let narrow = rows::justify(vec![raw("ab")], vec![raw("cde")], 2);
    assert_eq!(content(&narrow), "cde");
    let wide = rows::justify(vec![raw("日本語の本")], vec![raw("x")], 8);
    assert_eq!(width(&wide), 8);
    assert_eq!(content(&wide), "日本…  x");
}

#[test]
fn clip_measures_cells() {
    assert_eq!(content(&theme::clip(vec![raw("abc")], 3)), "abc");
    assert_eq!(content(&theme::clip(vec![raw("abcd")], 3)), "ab…");
    assert_eq!(content(&theme::clip(vec![raw("ab"), raw("cd")], 3)), "ab…");
    assert_eq!(content(&theme::clip(vec![raw("a"), raw("bcd")], 3)), "ab…");
    assert!(theme::clip(vec![raw("ab")], 0).is_empty());
    assert_eq!(content(&theme::clip(vec![raw("日本語")], 4)), "日…");
    let mut styled = vec![raw("abcdef")];
    styled[0].style = Style::strong(Tone::Good);
    assert_eq!(theme::clip(styled, 4)[0].style, Style::strong(Tone::Good));
}

#[test]
fn plain_characters_take_one_cell() {
    let plain = (0x20u32..=0x7e).chain(0x2580..=0x259f).chain(0x2026..=0x2026);
    let mut all = String::new();
    for code in plain {
        let c = char::from_u32(code).unwrap();
        all.push(c);
        // One cell more than fits makes room for one character and the ellipsis.
        let cut = theme::clip(vec![raw(&format!("{c}{c}{c}"))], 2);
        assert_eq!(content(&cut), format!("{c}…"));
        assert_eq!(theme::run_width(&vec![raw(&c.to_string())]), 1);
    }
    assert_eq!(
        theme::run_width(&vec![raw(&all)]),
        all.chars().count() as u128
    );
    assert_eq!(theme::run_width(&vec![raw("日本")]), 4);
}

#[test]
fn rates_need_time_and_bytes() {
    assert_eq!(theme::rate(10, 299_999_999, "1.0 kB"), "--");
    assert_eq!(theme::rate(0, 1_000_000_000, "0 B"), "--");
    assert_eq!(theme::rate(10, 300_000_000, "33 B"), "33 B/s");
}

#[test]
fn durations_are_written_like_a_clock() {
    let second = 1_000_000_000;
    assert_eq!(theme::eta(1, 2, second, 42, true), "0:42");
    assert_eq!(theme::eta(1, 2, second, 125, false), "2:05");
    assert_eq!(theme::eta(1, 2, second, 3599, false), "59:59");
    assert_eq!(theme::eta(1, 2, second, 3661, false), "1:01:01");
    assert_eq!(theme::eta(1, 2, second, 359_999, false), "99:59:59");
    assert_eq!(theme::eta(1, 2, second, 359_999, true), "--:--");
    assert_eq!(theme::eta(1, 2, second, u64::MAX, false), "--:--");
    assert_eq!(theme::eta(0, 2, second, 1, false), "--:--");
    assert_eq!(theme::eta(2, 2, second, 1, false), "--:--");
    assert_eq!(theme::eta(1, 2, 299_999_999, 1, false), "--:--");
}

#[test]
fn sizes_have_decimal_units() {
    let size = |bytes: u64| {
        let quotient = match theme::size_unit(bytes) {
            Some(unit) => format!("{:.1}", bytes as f64 / unit.bytes() as f64),
            None => String::new(),
        };
        theme::human_size(bytes, &quotient)
    };
    assert_eq!(size(0), "0 B");
    assert_eq!(size(999), "999 B");
    assert_eq!(size(1000), "1.0 kB");
    assert_eq!(size(374_890), "374.9 kB");
    assert_eq!(size(2_500_000), "2.5 MB");
    assert_eq!(size(1_000_000_000), "1.0 GB");
    assert_eq!(size(1_234_000_000_000), "1234.0 GB");
}

#[test]
fn the_spinner_turns() {
    let symbols = ["⣧", "⣏", "⡟", "⠿", "⢻", "⣹", "⣼", "⣶"];
    let mut place = 0;
    for tick in 0..300 {
        let span = theme::spin(place, Style::of(Tone::Warn));
        assert_eq!(span.content, format!("{} ", symbols[tick % 8]));
        place = theme::advance(place);
    }
    assert_eq!(theme::advance(127), 0);
    assert_eq!(theme::spin(-1, Style::plain()).content, "⣶ ");
}

#[test]
fn the_palette_is_fixed() {
    assert_eq!(Tone::Accent.rgb(), (86, 182, 194));
    assert_eq!(Tone::AccentBright.rgb(), (127, 219, 232));
    assert_eq!(Tone::Good.rgb(), (152, 195, 121));
    assert_eq!(Tone::Warn.rgb(), (229, 192, 123));
    assert_eq!(Tone::Bad.rgb(), (224, 108, 117));
    assert_eq!(Tone::Muted.rgb(), (120, 130, 148));
    assert_eq!(Tone::Faint.rgb(), (72, 80, 94));
    assert_eq!(Tone::Violet.rgb(), (198, 120, 221));
    assert_eq!(Tone::Blue.rgb(), (97, 175, 239));
    assert_eq!(Tone::SelectionBg.rgb(), (44, 51, 64));
    assert_eq!(Tone::OnAccent.rgb(), (22, 26, 33));
    assert_eq!(theme::hint("x").style, Style::of(Tone::Muted));
    assert_eq!(theme::key("x").style, Style::strong(Tone::Accent));
}
