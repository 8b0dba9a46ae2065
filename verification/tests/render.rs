use dirsearch::pattern::MatchSpan;
use dirsearch::render::{render_match, COLOR_OFF, COLOR_ON};

#[test]
fn color_sequences_are_bright_red_and_reset() {
    assert_eq!(COLOR_ON, "\x1b[91m");
    assert_eq!(COLOR_OFF, "\x1b[0m");
}

#[test]
fn plain_line_is_parent_slash_name() {
    let span = MatchSpan { start: 0, end: 5 };
    assert_eq!(render_match("dir", "a.txt", span, false), "dir/a.txt");
}

#[test]
fn highlight_covers_whole_name() {
    let span = MatchSpan { start: 0, end: 5 };
    assert_eq!(render_match("dir", "a.txt", span, true), "dir/\x1b[91ma.txt\x1b[0m");
}

#[test]
fn highlight_covers_only_the_span() {
    let span = MatchSpan { start: 1, end: 3 };
    assert_eq!(render_match("/var/log", "data.txt", span, true), "/var/log/d\x1b[91mat\x1b[0ma.txt");
    assert_eq!(render_match("/var/log", "data.txt", span, false), "/var/log/data.txt");
}

#[test]
fn highlight_never_touches_the_parent() {
    // The parent holds the matched text too; only the name is marked.
    let span = MatchSpan { start: 0, end: 3 };
    assert_eq!(render_match("log/log", "log.1", span, true), "log/log/\x1b[91mlog\x1b[0m.1");
}

#[test]
fn empty_span_gives_adjacent_sequences() {
    let span = MatchSpan { start: 2, end: 2 };
    assert_eq!(render_match("d", "abcd", span, true), "d/ab\x1b[91m\x1b[0mcd");
    assert_eq!(render_match("d", "abcd", span, false), "d/abcd");
}

#[test]
fn span_at_the_end_of_the_name() {
    let span = MatchSpan { start: 2, end: 4 };
    assert_eq!(render_match("d", "abcd", span, true), "d/ab\x1b[91mcd\x1b[0m");
}

#[test]
fn empty_parent_still_gets_its_slash() {
    let span = MatchSpan { start: 0, end: 1 };
    assert_eq!(render_match("", "x", span, false), "/x");
    assert_eq!(render_match("", "x", span, true), "/\x1b[91mx\x1b[0m");
}

#[test]
fn offsets_count_bytes_of_wide_characters() {
    // Each Greek letter takes two bytes.
    let span = MatchSpan { start: 2, end: 4 };
    assert_eq!(render_match("dir", "αβγ.txt", span, true), "dir/α\x1b[91mβ\x1b[0mγ.txt");
    assert_eq!(render_match("dir", "αβγ.txt", span, false), "dir/αβγ.txt");
}

#[test]
fn stripped_highlight_is_the_plain_line() {
    let span = MatchSpan { start: 3, end: 7 };
    let lit = render_match("/home/me", "my-notes.md", span, true);
    let plain = render_match("/home/me", "my-notes.md", span, false);
    assert_ne!(lit, plain);
    assert_eq!(lit.len(), plain.len() + COLOR_ON.len() + COLOR_OFF.len());
    assert_eq!(lit.replace(COLOR_ON, "").replace(COLOR_OFF, ""), plain);
}
