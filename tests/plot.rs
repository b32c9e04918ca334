use suntime::chart::{plot_times, ChartError, TimeOfDay};
use suntime::codec::{char_for_pattern, pattern_from_char, plot_at};
use suntime::grid::CellBuffer;
use suntime::raster::{pattern_for, plot_line, y_at};

fn at(h: u32, m: u32, s: u32) -> TimeOfDay {
    TimeOfDay::from_hms(h, m, s).unwrap()
}

#[test]
fn test_pattern_for() {
    assert_eq!(0b1000, pattern_for(0, 0));
    assert_eq!(0b0100, pattern_for(1, 1));
    assert_eq!(0b0010, pattern_for(2, 2));
    assert_eq!(0b0001, pattern_for(3, 3));

    assert_eq!(0b1100, pattern_for(0, 1));
    assert_eq!(0b1110, pattern_for(0, 2));
    assert_eq!(0b0110, pattern_for(1, 2));
    assert_eq!(0b0111, pattern_for(1, 5));
    assert_eq!(0b1111, pattern_for(0, 5));
    assert_eq!(0b1100, pattern_for(5, 1));
    for i in 0u8..=255 {
        let mut ch = ' ';
        plot_at(i, &mut ch);
        println!("{ch}");
    }
}

#[test]
fn test_y_at() {
    assert_eq!(y_at((0, 0), (10, 10), 0), 0);
    assert_eq!(y_at((0, 0), (10, 10), 10), 10);
    assert_eq!(y_at((0, 0), (10, 10), 5), 5);
    assert_eq!(y_at((0, 10), (10, 0), 0), 10);
    assert_eq!(y_at((0, 10), (10, 0), 10), 0);
    assert_eq!(y_at((0, 10), (10, 0), 5), 5);
    assert_eq!(y_at((102, 15), (136, 20), 120), 17);
}

#[test]
fn codec_round_trip_all_patterns() {
    for p in 0u8..=255 {
        let c = char_for_pattern(p);
        assert_eq!(pattern_from_char(c), p);
        if p == 0 {
            assert_eq!(c, ' ');
        } else {
            assert!(('\u{2801}'..='\u{28FF}').contains(&c));
        }
    }
}

#[test]
fn codec_known_glyphs() {
    assert_eq!(char_for_pattern(0b0000_0001), '\u{2801}');
    assert_eq!(char_for_pattern(0b0000_1000), '\u{2840}');
    assert_eq!(char_for_pattern(0b0001_0000), '\u{2808}');
    assert_eq!(char_for_pattern(0b1000_0000), '\u{2880}');
    assert_eq!(char_for_pattern(0xFF), '\u{28FF}');
    assert_eq!(pattern_from_char('\u{2800}'), 0);
    assert_eq!(pattern_from_char('\u{28C7}'), 0x8F);
}

#[test]
fn merge_order_does_not_matter() {
    let ps = [0b0000_0011u8, 0b1000_0000, 0b0000_0110, 0b0000_0011];
    let mut a = ' ';
    for p in ps {
        plot_at(p, &mut a);
    }
    let mut b = ' ';
    for p in ps.iter().rev() {
        plot_at(*p, &mut b);
    }
    assert_eq!(a, b);
    assert_eq!(pattern_from_char(a), 0b1000_0111);
    plot_at(0b0000_0001, &mut a);
    assert_eq!(pattern_from_char(a), 0b1000_0111);
}

#[test]
fn buffer_merge_keeps_lit_cells() {
    let mut buf = CellBuffer::new(2, 1);
    buf.merge(0, 1, 0b0000_0001);
    buf.merge(0, 1, 0b0001_0000);
    let rows = buf.render();
    assert_eq!(rows, vec![" \u{2809}".to_string()]);
}

#[test]
fn gapped_masks_are_filled() {
    assert_eq!(pattern_for(1, 5), 0b0111);
    assert_eq!(pattern_for(2, 0), 0b1110);
    assert_eq!(pattern_for(0, 3), 0b1111);
    assert_eq!(pattern_for(3, 0), 0b1111);
    for a in 0..12 {
        for b in 0..12 {
            let p = pattern_for(a, b);
            assert!(p != 0b0101 && p != 0b1010 && p != 0b1001);
        }
    }
}

#[test]
fn vertical_line_lights_every_row() {
    let height = 4usize;
    let mut buf = CellBuffer::new(3, height + 1);
    plot_line((3, 0), (3, 4 * height as i64 - 1), &mut buf);
    let rows = buf.render();
    for r in 1..=height {
        let c = rows[r].chars().nth(1).unwrap();
        assert!(pattern_from_char(c) & 0xF0 != 0, "row {r}");
    }
    assert_eq!(rows[0], "   ");
}

#[test]
fn vertical_line_with_equal_ends_draws_nothing() {
    let mut buf = CellBuffer::new(2, 2);
    plot_line((1, 3), (1, 3), &mut buf);
    assert_eq!(buf.render(), vec!["  ".to_string(), "  ".to_string()]);
}

#[test]
fn interpolation_is_exact_at_ends() {
    let cases = [((0, 3), (7, 20)), ((2, 40), (9, 1)), ((5, 5), (6, 0))];
    for (from, to) in cases {
        assert_eq!(y_at(from, to, from.0), from.1);
        assert_eq!(y_at(from, to, to.0), to.1);
    }
    assert_eq!(y_at((0, 0), (3, -7), 1), -2);
}

#[test]
fn sunsets_chart() {
    let times = [at(18, 0, 0), at(18, 10, 0), at(17, 50, 0)];
    let lines = plot_times("Sunsets", 10, 4, &times).unwrap();
    let expected = [
        format!("{:>10} {}", "", "   \u{2840}      "),
        format!("{:>10} {}", "18:10:00", " \u{28A0}\u{281E}\u{28B0}      "),
        format!("{:>10} {}", "Sunsets", "\u{2874}\u{2803}  \u{28C7}     "),
        format!("{:>10} {}", "", "     \u{2846}    "),
        format!("{:>10} {}", "17:50:00", "     \u{28B8}    "),
    ];
    assert_eq!(lines.len(), 5);
    for (line, want) in lines.iter().zip(expected) {
        assert_eq!(line.chars().count(), 21);
        assert_eq!(*line, want);
        assert!(line
            .chars()
            .skip(11)
            .all(|c| c == ' ' || ('\u{2800}'..='\u{28FF}').contains(&c)));
    }
    assert_eq!(lines[1][..10].trim(), "18:10:00");
    assert_eq!(lines[2][..10].trim(), "Sunsets");
    assert_eq!(lines[4][..10].trim(), "17:50:00");
}

#[test]
fn flat_series_is_refused() {
    let times = [at(12, 0, 0), at(12, 0, 0)];
    assert_eq!(plot_times("X", 10, 4, &times), Err(ChartError::FlatSeries));
}

#[test]
fn too_few_samples_is_refused() {
    assert_eq!(plot_times("X", 10, 4, &[]), Err(ChartError::TooFewSamples));
    assert_eq!(plot_times("X", 10, 4, &[at(6, 0, 0)]), Err(ChartError::TooFewSamples));
}

#[test]
fn zero_width_is_refused() {
    let times = [at(6, 0, 0), at(7, 0, 0)];
    assert_eq!(plot_times("X", 0, 4, &times), Err(ChartError::ZeroWidth));
}

#[test]
fn chart_lines_have_fixed_width() {
    let times = [at(7, 1, 2), at(6, 59, 0), at(7, 30, 30), at(7, 0, 0), at(6, 45, 9)];
    let lines = plot_times("A rather long label", 17, 6, &times).unwrap();
    assert_eq!(lines.len(), 7);
    assert_eq!(&lines[1][..11], "  07:30:30 ");
    assert_eq!(&lines[6][..11], "  06:45:09 ");
    assert!(lines[3].starts_with("A rather long label "));
    for (i, line) in lines.iter().enumerate() {
        if i != 3 {
            assert_eq!(line.chars().count(), 28);
        }
    }
}

#[test]
fn time_of_day_bounds() {
    assert_eq!(at(0, 0, 1).millis, 1000);
    assert_eq!(at(23, 59, 59).millis, 86_399_000);
    assert!(TimeOfDay::from_hms(24, 0, 0).is_none());
    assert!(TimeOfDay::from_hms(0, 60, 0).is_none());
    assert!(TimeOfDay::from_millis(86_400_000).is_none());
    assert_eq!(TimeOfDay::from_millis(5).unwrap().millis, 5);
}
