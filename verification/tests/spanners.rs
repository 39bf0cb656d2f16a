use strcursor::spanner::{ByteSpanner, CharSpanner, NoOpSpanner, RowColSpanner};
use strcursor::Spanner;

#[test]
fn byte_spanner_counts_encoded_widths() {
    let mut sp = ByteSpanner::default();
    sp.forward('a');
    assert_eq!(sp.bytes, 1);
    sp.forward('\u{e9}');
    assert_eq!(sp.bytes, 3);
    sp.forward('\u{20ac}');
    assert_eq!(sp.bytes, 6);
    sp.forward('\u{10348}');
    assert_eq!(sp.bytes, 10);
}

#[test]
fn byte_spanner_width_boundaries() {
    for (c, w) in [
        ('\u{7f}', 1),
        ('\u{80}', 2),
        ('\u{7ff}', 2),
        ('\u{800}', 3),
        ('\u{ffff}', 3),
        ('\u{10000}', 4),
        ('\u{10ffff}', 4),
    ] {
        let mut sp = ByteSpanner::default();
        sp.forward(c);
        assert_eq!(sp.bytes, w, "width of {:?}", c);
        assert_eq!(sp.bytes, c.len_utf8());
    }
}

#[test]
fn byte_spanner_backward_undoes_forward() {
    for c in ['a', '\u{e9}', '\u{20ac}', '\u{10348}', '\n'] {
        let mut sp = ByteSpanner { bytes: 17 };
        sp.forward(c);
        sp.backward(c);
        assert_eq!(sp, ByteSpanner { bytes: 17 });
    }
}

#[test]
fn byte_spanner_forward_str_adds_total_width() {
    let run: Vec<char> = "a\u{e9}\u{20ac}\u{10348}".chars().collect();
    let mut sp = ByteSpanner::default();
    sp.forward_str(&run);
    assert_eq!(sp.bytes, 10);
}

#[test]
fn char_spanner_counts_code_points() {
    let run: Vec<char> = "a\u{e9}\u{20ac}\u{10348}".chars().collect();
    let mut sp = CharSpanner::default();
    sp.forward_str(&run);
    assert_eq!(sp.count(), 4);
    sp.forward('x');
    assert_eq!(sp.count(), 5);
}

#[test]
fn char_spanner_backward_undoes_forward() {
    let mut sp = CharSpanner::default();
    sp.forward('q');
    sp.forward('r');
    sp.backward('r');
    sp.backward('q');
    assert_eq!(sp.count(), 0);
}

#[test]
fn row_col_forward_rules() {
    let mut sp = RowColSpanner::default();
    sp.forward('a');
    sp.forward('b');
    assert_eq!((sp.row(), sp.col()), (0, 2));
    sp.forward('\n');
    assert_eq!((sp.row(), sp.col()), (1, 0));
    sp.forward('\t');
    assert_eq!((sp.row(), sp.col()), (1, 0));
    sp.forward('c');
    assert_eq!((sp.row(), sp.col()), (1, 1));
}

#[test]
fn row_col_control_boundaries() {
    let mut sp = RowColSpanner::default();
    sp.forward('\r');
    sp.forward('\u{7f}');
    sp.forward('\u{9f}');
    assert_eq!((sp.row(), sp.col()), (0, 0), "control code points move nothing");
    sp.forward('\u{a0}');
    assert_eq!((sp.row(), sp.col()), (0, 1), "a non-control code point advances the column");
    for c in ['\r', '\u{7f}', '\u{9f}', '\u{a0}'] {
        assert_eq!(c.is_control(), matches!(c, '\r' | '\u{7f}' | '\u{9f}'));
    }
}

#[test]
fn row_col_backward_undoes_forward() {
    let mut sp = RowColSpanner::default();
    sp.forward('a');
    sp.forward('b');
    let before = sp.clone();
    sp.forward('\n');
    sp.backward('\n');
    assert_eq!(sp, before);
    sp.forward('\t');
    sp.backward('\t');
    assert_eq!(sp, before);
    sp.forward('z');
    sp.backward('z');
    assert_eq!(sp, before);
}

#[test]
fn row_col_validate_clears_saved_columns_only() {
    let run: Vec<char> = "ab\ncd\ne".chars().collect();
    let mut sp = RowColSpanner::default();
    sp.forward_str(&run);
    assert_eq!((sp.row(), sp.col()), (2, 1));
    sp.validate();
    assert_eq!((sp.row(), sp.col()), (2, 1));
    let again = sp.clone();
    sp.validate();
    assert_eq!(sp, again);
}

#[test]
fn no_op_spanner_does_nothing() {
    let mut sp = NoOpSpanner::default();
    sp.forward('a');
    sp.backward('a');
    sp.validate();
    let run: Vec<char> = "xyz".chars().collect();
    sp.forward_str(&run);
    assert_eq!(sp, NoOpSpanner);
}

#[test]
fn duplicate_is_independent() {
    let mut sp = CharSpanner::default();
    sp.forward('a');
    let mut copy = sp.duplicate();
    assert_eq!(copy, sp);
    copy.forward('b');
    assert_eq!(sp.count(), 1);
    assert_eq!(copy.count(), 2);
}
