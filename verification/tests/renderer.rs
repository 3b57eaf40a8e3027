use ascii_campfire::flush::TermCommand;
use ascii_campfire::renderer::{Cell, Color, Renderer};

#[test]
fn clear_fills_buffer_with_defaults() {
    let mut r = Renderer::new_headless(10, 5);
    r.put(3, 2, 'X', Color::Red);
    r.clear();
    assert_eq!(r.cell_at(3, 2), Cell::default());
}

#[test]
fn put_writes_to_correct_position() {
    let mut r = Renderer::new_headless(10, 5);
    r.put(4, 2, 'A', Color::Green);
    assert_eq!(r.cell_at(4, 2).ch, 'A');
    assert_eq!(r.cell_at(4, 2).color, Color::Green);
}

#[test]
fn put_ignores_out_of_bounds() {
    let mut r = Renderer::new_headless(10, 5);
    r.put(10, 0, 'X', Color::Red);
    r.put(0, 5, 'X', Color::Red);
}

#[test]
fn put_str_writes_characters_in_sequence() {
    let mut r = Renderer::new_headless(20, 5);
    r.put_str(3, 1, "hello", Color::White);
    assert_eq!(r.cell_at(3, 1).ch, 'h');
    assert_eq!(r.cell_at(7, 1).ch, 'o');
}

#[test]
fn put_out_of_bounds_leaves_every_cell_blank() {
    let mut r = Renderer::new_headless(10, 5);
    r.put(10, 0, 'X', Color::Red);
    r.put(0, 5, 'X', Color::Red);
    for y in 0..5 {
        for x in 0..10 {
            assert_eq!(r.cell_at(x, y), Cell::default());
        }
    }
}

#[test]
fn put_then_read_other_cell_unchanged() {
    let mut r = Renderer::new_headless(4, 3);
    r.put(1, 1, 'Q', Color::Blue);
    assert_eq!(r.cell_at(1, 1), Cell { ch: 'Q', color: Color::Blue });
    assert_eq!(r.cell_at(2, 1), Cell::default());
    assert_eq!(r.cell_at(1, 0), Cell::default());
}

#[test]
fn put_str_stops_at_right_edge() {
    let mut r = Renderer::new_headless(6, 2);
    r.put_str(3, 0, "abcdef", Color::White);
    assert_eq!(r.cell_at(3, 0).ch, 'a');
    assert_eq!(r.cell_at(5, 0).ch, 'c');
    // nothing wraps onto the next row
    assert_eq!(r.cell_at(0, 1), Cell::default());
}

#[test]
fn put_str_counts_characters_not_bytes() {
    let mut r = Renderer::new_headless(6, 1);
    r.put_str(0, 0, "é✦x", Color::White);
    assert_eq!(r.cell_at(0, 0).ch, 'é');
    assert_eq!(r.cell_at(1, 0).ch, '✦');
    assert_eq!(r.cell_at(2, 0).ch, 'x');
}

#[test]
fn resize_gives_blank_frames() {
    let mut r = Renderer::new_headless(3, 3);
    r.put(1, 1, 'Z', Color::Red);
    r.resize(5, 2);
    assert_eq!(r.width(), 5);
    assert_eq!(r.height(), 2);
    assert_eq!(r.cell_at(4, 1), Cell::default());
    assert_eq!(r.cell_at(1, 1), Cell::default());
}

#[test]
fn fill_row_writes_prefix_of_row() {
    let mut r = Renderer::new_headless(5, 2);
    r.fill_row(1, 3, '_', Color::DarkGrey);
    assert_eq!(r.cell_at(0, 1), Cell { ch: '_', color: Color::DarkGrey });
    assert_eq!(r.cell_at(2, 1), Cell { ch: '_', color: Color::DarkGrey });
    assert_eq!(r.cell_at(3, 1), Cell::default());
}

fn describe(cmds: &[TermCommand]) -> Vec<String> {
    cmds.iter()
        .map(|c| match c {
            TermCommand::BeginSync => "begin".to_string(),
            TermCommand::MoveTo(x, y) => format!("move {} {}", x, y),
            TermCommand::SetForeground(c) => format!("fg {:?}", c),
            TermCommand::Print(t) => format!("print {}", t.iter().collect::<String>()),
            TermCommand::ResetColor => "reset".to_string(),
            TermCommand::EndSync => "end".to_string(),
        })
        .collect()
}

#[test]
fn flush_of_unchanged_frame_is_empty_update() {
    let r = Renderer::new_headless(8, 3);
    let cmds = r.flush();
    assert_eq!(describe(&cmds), vec!["begin", "end"]);
}

#[test]
fn flush_batches_a_run_and_resets_colour() {
    let mut r = Renderer::new_headless(10, 3);
    r.put_str(2, 1, "abc", Color::Red);
    let cmds = r.flush();
    assert_eq!(
        describe(&cmds),
        vec!["begin", "fg Red", "move 2 1", "print abc", "reset", "end"]
    );
    // until the frame is marked as shown, flushing plans the same commands again
    assert_eq!(describe(&r.flush()), describe(&cmds));
    r.mark_shown();
    // the frame is now on screen: flushing again writes nothing
    let again = r.flush();
    assert_eq!(describe(&again), vec!["begin", "end"]);
}

#[test]
fn flush_skips_cursor_move_when_cursor_is_already_there() {
    let mut r = Renderer::new_headless(10, 2);
    r.put_str(0, 0, "ab", Color::Red);
    r.put_str(2, 0, "cd", Color::Green);
    let cmds = r.flush();
    assert_eq!(
        describe(&cmds),
        vec!["begin", "fg Red", "move 0 0", "print ab", "fg Green", "print cd", "reset", "end"]
    );
}

#[test]
fn flush_breaks_runs_at_row_ends_and_unchanged_cells() {
    let mut r = Renderer::new_headless(3, 2);
    r.put(2, 0, 'x', Color::White);
    r.put(0, 1, 'y', Color::White);
    r.put(2, 1, 'z', Color::White);
    let cmds = r.flush();
    assert_eq!(
        describe(&cmds),
        vec![
            "begin", "fg White", "move 2 0", "print x", "move 0 1", "print y", "move 2 1",
            "print z", "reset", "end"
        ]
    );
}

#[test]
fn flush_after_clear_erases_previous_frame() {
    let mut r = Renderer::new_headless(4, 1);
    r.put_str(0, 0, "hi", Color::Yellow);
    r.flush();
    r.mark_shown();
    r.clear();
    let cmds = r.flush();
    assert_eq!(describe(&cmds), vec!["begin", "move 0 0", "print   ", "end"]);
}

#[test]
fn flush_counts_columns_not_bytes() {
    let mut r = Renderer::new_headless(4, 1);
    r.put_str(0, 0, "é", Color::White);
    r.put(1, 0, 'a', Color::White);
    let cmds = r.flush();
    // a two-byte character takes one column, so the run goes on
    assert_eq!(describe(&cmds), vec!["begin", "fg White", "move 0 0", "print éa", "reset", "end"]);
}

#[test]
fn flush_moves_cursor_after_multibyte_character_and_gap() {
    let mut r = Renderer::new_headless(3, 1);
    r.put(0, 0, 'é', Color::White);
    r.put(2, 0, 'A', Color::White);
    let cmds = r.flush();
    assert_eq!(
        describe(&cmds),
        vec!["begin", "fg White", "move 0 0", "print é", "move 2 0", "print A", "reset", "end"]
    );
}

/// A terminal of `w` x `h` characters that obeys the commands.
fn apply(screen: &mut Vec<Cell>, w: usize, cmds: &[TermCommand]) {
    let (mut cx, mut cy) = (0usize, 0usize);
    let mut color = Color::Reset;
    for c in cmds {
        match c {
            TermCommand::MoveTo(x, y) => {
                cx = *x as usize;
                cy = *y as usize;
            }
            TermCommand::SetForeground(c) => color = *c,
            TermCommand::ResetColor => color = Color::Reset,
            TermCommand::Print(text) => {
                for ch in text {
                    if cx < w {
                        screen[cy * w + cx] = Cell { ch: *ch, color };
                    }
                    cx += 1;
                }
            }
            _ => {}
        }
    }
    assert_eq!(color, Color::Reset);
}

#[test]
fn flush_paints_new_frame_on_simulated_terminal() {
    let (w, h) = (12u16, 4u16);
    let mut r = Renderer::new_headless(w, h);
    let mut screen = vec![Cell::default(); (w * h) as usize];
    let frames: [&[(u16, u16, &str, Color)]; 3] = [
        &[(0, 0, "hello", Color::Red), (3, 2, "abc", Color::Green)],
        &[(2, 0, "xyé", Color::Red), (0, 3, "__✦_é_______", Color::DarkGrey), (11, 1, "z", Color::Blue)],
        &[],
    ];
    for f in frames.iter() {
        r.clear();
        for (x, y, s, c) in f.iter() {
            r.put_str(*x, *y, s, *c);
        }
        let cmds = r.flush();
        apply(&mut screen, w as usize, &cmds);
        r.mark_shown();
        for y in 0..h {
            for x in 0..w {
                assert_eq!(screen[(y * w + x) as usize], r.cell_at(x, y));
            }
        }
    }
}

#[test]
fn flush_leaves_cells_of_unchanged_frame_parts_alone() {
    // A terminal whose cells differ from what the renderer last showed keeps those
    // cells wherever the new frame did not change; changed cells get the new frame.
    let (w, h) = (6u16, 2u16);
    let mut r = Renderer::new_headless(w, h);
    r.put_str(0, 0, "ab", Color::Red);
    r.flush();
    r.mark_shown();
    let marker = Cell { ch: '#', color: Color::Blue };
    let mut screen = vec![marker; (w * h) as usize];
    r.put(4, 1, 'z', Color::Green);
    let cmds = r.flush();
    apply(&mut screen, w as usize, &cmds);
    for i in 0..(w * h) as usize {
        if i == 10 {
            assert_eq!(screen[i], Cell { ch: 'z', color: Color::Green });
        } else {
            assert_eq!(screen[i], marker);
        }
    }
}
