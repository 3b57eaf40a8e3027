use ascii_campfire::badapple::BadApplePlayer;

#[test]
fn parse_two_frames() {
    let data = "AB\nCD\n---\nEF\nGH";
    let frames = BadApplePlayer::parse_frames(data);
    assert_eq!(frames.len(), 2);
    assert_eq!(frames[0], vec!["AB", "CD"]);
    assert_eq!(frames[1], vec!["EF", "GH"]);
}

#[test]
fn parse_trailing_frame_without_separator() {
    let data = "X\n---\nY\nZ";
    let frames = BadApplePlayer::parse_frames(data);
    assert_eq!(frames.len(), 2);
    assert_eq!(frames[1], vec!["Y", "Z"]);
}

#[test]
fn advance_loops() {
    let data = "A\n---\nB\n---\nC";
    let frames = BadApplePlayer::parse_frames(data);
    let mut player = BadApplePlayer::from_frames(frames).unwrap();
    assert_eq!(player.current_lines(), &["A"]);
    player.advance();
    assert_eq!(player.current_lines(), &["B"]);
    player.advance();
    assert_eq!(player.current_lines(), &["C"]);
    player.advance();
    assert_eq!(player.current_lines(), &["A"]); // looped
}

#[test]
fn separators_with_blanks_and_crlf_and_empty_frames() {
    let data = "---\r\n  ---  \nA\r\nB\n\t---\n---\nC\r";
    let frames = BadApplePlayer::parse_frames(data);
    assert_eq!(frames.len(), 2);
    assert_eq!(frames[0], vec!["A", "B"]);
    // a final carriage return without a line feed stays part of the line
    assert_eq!(frames[1], vec!["C\r"]);
}

#[test]
fn dashes_with_other_text_are_content() {
    let frames = BadApplePlayer::parse_frames("----\n- --\n");
    assert_eq!(frames, vec![vec!["----", "- --"]]);
}

#[test]
fn empty_text_has_no_frames() {
    assert!(BadApplePlayer::parse_frames("").is_empty());
    assert!(BadApplePlayer::from_text("---\n---\n").is_none());
    assert!(BadApplePlayer::from_frames(Vec::new()).is_none());
    let p = BadApplePlayer::from_text("x\n").unwrap();
    assert_eq!(p.current_lines(), &["x"]);
}

#[test]
fn blank_lines_are_kept_in_frames() {
    let frames = BadApplePlayer::parse_frames("a\n\nb\n");
    assert_eq!(frames, vec![vec!["a", "", "b"]]);
}

#[test]
fn advance_comes_round_after_exactly_as_many_calls_as_frames() {
    let mut p = BadApplePlayer::from_text("a\n---\nb\n---\nc").unwrap();
    let order = ["a", "b", "c"];
    for k in 0..7 {
        assert_eq!(p.current_lines(), &[order[k % 3]]);
        p.advance();
    }
}
