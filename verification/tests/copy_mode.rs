use dvtr::{BufferPos, CopyModeState, TextObjectModifier, VisualMode};

#[test]
fn test_basic_movement() {
    let mut state = CopyModeState::new(80, 24, 100);

    // Start at bottom-left
    assert_eq!(state.cursor.x, 0);
    assert_eq!(state.cursor.y, 23);

    // Move right
    state.move_right();
    assert_eq!(state.cursor.x, 1);

    // Move left
    state.move_left();
    assert_eq!(state.cursor.x, 0);

    // Move up
    state.move_up();
    assert_eq!(state.cursor.y, 22);

    // Move down
    state.move_down();
    assert_eq!(state.cursor.y, 23);
}

#[test]
fn test_line_navigation() {
    let mut state = CopyModeState::new(80, 24, 100);
    state.cursor.x = 10;

    // Move to start
    state.move_to_line_start();
    assert_eq!(state.cursor.x, 0);

    // Move to end (with line content "hello     " padded to 80)
    let mut line: Vec<char> = "hello".chars().collect();
    line.resize(80, ' ');
    state.move_to_line_end(&line);
    assert_eq!(state.cursor.x, 4); // last char of "hello" is at index 4
}

#[test]
fn test_scrollback_navigation() {
    let mut state = CopyModeState::new(80, 24, 100);

    // Go to top (into scrollback)
    state.move_to_top();
    assert_eq!(state.cursor.y, -100);

    // Go to bottom
    state.move_to_bottom();
    assert_eq!(state.cursor.y, 23);
}

#[test]
fn test_visual_char_selection() {
    let mut state = CopyModeState::new(80, 24, 100);
    state.cursor = BufferPos::new(5, 10);

    // Enter visual mode
    state.toggle_visual_char();
    assert_eq!(state.visual_mode, VisualMode::Char);
    assert!(state.selection.is_some());

    // Move cursor
    state.move_right();
    state.move_right();
    state.move_down();

    // Check selection bounds
    let bounds = state.get_selection_bounds().unwrap();
    assert_eq!(bounds, (5, 10, 7, 11));

    // Exit visual mode
    state.toggle_visual_char();
    assert_eq!(state.visual_mode, VisualMode::Off);
    assert!(state.selection.is_none());
}

#[test]
fn test_visual_line_selection() {
    let mut state = CopyModeState::new(80, 24, 100);
    state.cursor = BufferPos::new(5, 10);

    // Enter line visual mode
    state.toggle_visual_line();
    assert_eq!(state.visual_mode, VisualMode::Line);

    // Move down
    state.move_down();
    state.move_down();

    // Check selection bounds (full lines)
    let bounds = state.get_selection_bounds().unwrap();
    assert_eq!(bounds, (0, 10, 79, 12));
}

#[test]
fn test_word_forward() {
    let mut state = CopyModeState::new(80, 24, 100);
    state.cursor = BufferPos::new(0, 0);

    // "hello world_test  foo.bar"
    let line: Vec<char> = "hello world_test  foo.bar".chars().collect();

    // w from start -> "world"
    state.move_word_forward(&line, false);
    assert_eq!(state.cursor.x, 6); // 'w' of world

    // w again -> "foo"
    state.move_word_forward(&line, false);
    assert_eq!(state.cursor.x, 18); // 'f' of foo

    // w again -> "." (punct is separate word class)
    state.cursor.x = 18;
    state.move_word_forward(&line, false);
    assert_eq!(state.cursor.x, 21); // '.'

    // W (big word) from start
    state.cursor.x = 0;
    state.move_word_forward(&line, true);
    assert_eq!(state.cursor.x, 6); // 'w' of world_test

    state.move_word_forward(&line, true);
    assert_eq!(state.cursor.x, 18); // 'f' of foo.bar
}

#[test]
fn test_word_backward() {
    let mut state = CopyModeState::new(80, 24, 100);

    let line: Vec<char> = "hello world_test  foo".chars().collect();

    // b from end
    state.cursor = BufferPos::new(20, 0);
    state.move_word_backward(&line, false);
    assert_eq!(state.cursor.x, 18); // 'f' of foo

    // b again -> "world"
    state.move_word_backward(&line, false);
    assert_eq!(state.cursor.x, 6); // 'w' of world_test

    // b again -> "hello"
    state.move_word_backward(&line, false);
    assert_eq!(state.cursor.x, 0);
}

#[test]
fn test_word_end() {
    let mut state = CopyModeState::new(80, 24, 100);
    state.cursor = BufferPos::new(0, 0);

    let line: Vec<char> = "hello world foo".chars().collect();

    // e from start -> end of "hello"
    state.move_word_end(&line, false);
    assert_eq!(state.cursor.x, 4); // 'o' of hello

    // e again -> end of "world"
    state.move_word_end(&line, false);
    assert_eq!(state.cursor.x, 10); // 'd' of world
}

#[test]
fn test_is_selected() {
    let mut state = CopyModeState::new(80, 24, 100);
    state.cursor = BufferPos::new(5, 10);
    state.toggle_visual_char();
    state.cursor = BufferPos::new(10, 10);
    state.selection.as_mut().unwrap().cursor = state.cursor;

    // Within selection
    assert!(state.is_selected(5, 10));
    assert!(state.is_selected(7, 10));
    assert!(state.is_selected(10, 10));

    // Outside selection
    assert!(!state.is_selected(4, 10));
    assert!(!state.is_selected(11, 10));
    assert!(!state.is_selected(5, 9));
    assert!(!state.is_selected(5, 11));
}

#[test]
fn test_text_object_word() {
    let mut state = CopyModeState::new(80, 24, 100);
    let line: Vec<char> = "hello world foo".chars().collect();

    // Position cursor in middle of "world"
    state.cursor = BufferPos::new(8, 0);
    state.start_text_object(TextObjectModifier::Inner);
    assert!(state.select_text_object('w', &line));

    // Should select "world" (positions 6-10)
    let bounds = state.get_selection_bounds().unwrap();
    assert_eq!(bounds.0, 6); // start x
    assert_eq!(bounds.2, 10); // end x
}

#[test]
fn test_text_object_quotes() {
    let mut state = CopyModeState::new(80, 24, 100);
    let line: Vec<char> = r#"say "hello world" now"#.chars().collect();

    // Position cursor inside the quoted string
    state.cursor = BufferPos::new(8, 0);
    state.start_text_object(TextObjectModifier::Inner);
    assert!(state.select_text_object('"', &line));

    // Should select "hello world" (inside quotes)
    let bounds = state.get_selection_bounds().unwrap();
    assert_eq!(bounds.0, 5); // start x (after opening quote)
    assert_eq!(bounds.2, 15); // end x (before closing quote)
}

#[test]
fn test_text_object_brackets() {
    let mut state = CopyModeState::new(80, 24, 100);
    let line: Vec<char> = "func(arg1, arg2)".chars().collect();

    // Position cursor inside parens
    state.cursor = BufferPos::new(8, 0);
    state.start_text_object(TextObjectModifier::Around);
    assert!(state.select_text_object('(', &line));

    // Should select "(arg1, arg2)" including parens
    let bounds = state.get_selection_bounds().unwrap();
    assert_eq!(bounds.0, 4); // start x (opening paren)
    assert_eq!(bounds.2, 15); // end x (closing paren)
}

#[test]
fn search_moves_to_match() {
    let mut state = CopyModeState::new(80, 24, 0);
    state.cursor = BufferPos::new(0, 23);
    let line: Vec<char> = {
        let mut l: Vec<char> = "say hello world".chars().collect();
        l.resize(80, ' ');
        l
    };
    state.start_search(true);
    state.search_push_char('w');
    state.search_push_char('o');
    state.search_push_char('r');
    // The match starts at column 10 ("world"); the scan after the cursor
    // would return 0 if the regex engine were not really consulted.
    assert!(state.execute_search(|_y| line.clone()));
    assert_eq!(state.cursor.x, 10);
    assert_eq!(state.cursor.y, 23);

    // Repeating from the match wraps around to the same place.
    assert!(state.search_next(|_y| line.clone()));
    assert_eq!(state.cursor.x, 10);
}

#[test]
fn search_invalid_pattern_is_refused() {
    let mut state = CopyModeState::new(80, 24, 0);
    let line: Vec<char> = "(unbalanced".chars().collect();
    state.start_search(true);
    state.search_push_char('(');
    assert!(!state.execute_search(|_y| line.clone()));
}

#[test]
fn find_char_motions() {
    let mut state = CopyModeState::new(80, 24, 0);
    state.cursor = BufferPos::new(0, 0);
    let line: Vec<char> = "abcabc".chars().collect();
    state.start_find_char(true, true);
    assert!(state.do_find_char('c', &line));
    assert_eq!(state.cursor.x, 2);
    assert!(state.repeat_find(&line));
    assert_eq!(state.cursor.x, 5);
    assert!(state.repeat_find_reverse(&line));
    assert_eq!(state.cursor.x, 2);
}

#[test]
fn count_prefix_accumulates() {
    let mut state = CopyModeState::new(80, 24, 0);
    assert_eq!(state.get_count(), 1);
    state.push_count_digit(4);
    state.push_count_digit(2);
    assert_eq!(state.get_count(), 42);
    state.reset_count();
    assert_eq!(state.get_count(), 1);
}
