use parson::choices::{
    compression_choice, optimization_choice, single_char, CompressionLevel, OptimizationLevel,
};
use parson::menu::{input_step, Feature, InputStep, Key, Menu, MenuAction, FEATURE_COUNT, FIRST_ROW};

const TITLES: [&str; 10] = [
    "Fast Reading",
    "Data Extraction",
    "Data Validation",
    "File Compression",
    "Multi-File Processing",
    "Custom Data Types",
    "Error Checking",
    "Pretty Printing",
    "Multi-Language Support",
    "Speed Optimization",
];

#[test]
fn features_stand_in_menu_order() {
    assert_eq!(FEATURE_COUNT, TITLES.len());
    for (place, title) in TITLES.iter().enumerate() {
        let feature = Feature::at(place).unwrap();
        assert_eq!(feature.title(), *title);
    }
    assert_eq!(Feature::at(0), Some(Feature::FastReading));
    assert_eq!(Feature::at(9), Some(Feature::SpeedOptimization));
    assert_eq!(Feature::at(10), None);
    assert_eq!(Feature::at(usize::MAX), None);
}

#[test]
fn new_menu_selects_the_first_feature() {
    assert_eq!(Menu::new().selected(), 0);
}

#[test]
fn down_moves_and_wraps_to_the_first() {
    let mut menu = Menu::new();
    for expected in [1, 2, 3, 4, 5, 6, 7, 8, 9, 0, 1] {
        assert_eq!(menu.press(Key::Down), MenuAction::Stay);
        assert_eq!(menu.selected(), expected);
    }
}

#[test]
fn up_moves_and_wraps_to_the_last() {
    let mut menu = Menu::new();
    for expected in [9, 8, 7, 6, 5, 4, 3, 2, 1, 0, 9] {
        assert_eq!(menu.press(Key::Up), MenuAction::Stay);
        assert_eq!(menu.selected(), expected);
    }
}

#[test]
fn enter_runs_the_selected_feature() {
    let mut menu = Menu::new();
    assert_eq!(menu.press(Key::Enter), MenuAction::Run(Feature::FastReading));
    menu.press(Key::Down);
    menu.press(Key::Down);
    menu.press(Key::Down);
    assert_eq!(menu.press(Key::Enter), MenuAction::Run(Feature::FileCompression));
    assert_eq!(menu.selected(), 3);
    menu.press(Key::Up);
    assert_eq!(menu.press(Key::Enter), MenuAction::Run(Feature::DataValidation));
}

#[test]
fn q_quits_and_other_keys_do_nothing() {
    let mut menu = Menu::new();
    menu.press(Key::Down);
    assert_eq!(menu.press(Key::Char('q')), MenuAction::Quit);
    assert_eq!(menu.selected(), 1);
    assert_eq!(menu.press(Key::Char('Q')), MenuAction::Stay);
    assert_eq!(menu.press(Key::Char('x')), MenuAction::Stay);
    assert_eq!(menu.press(Key::Esc), MenuAction::Stay);
    assert_eq!(menu.press(Key::Other), MenuAction::Stay);
    assert_eq!(menu.selected(), 1);
}

#[test]
fn lines_mark_the_selected_feature() {
    let mut menu = Menu::new();
    menu.press(Key::Down);
    let lines = menu.lines();
    assert_eq!(lines.len(), 10);
    for (place, line) in lines.iter().enumerate() {
        assert_eq!(line.row, FIRST_ROW + place as u16);
        assert_eq!(line.selected, place == 1);
        let marker = if place == 1 { "→ " } else { "  " };
        assert_eq!(line.text, format!("{}{}", marker, TITLES[place]));
    }
    assert_eq!(lines[0].row, 4);
    assert_eq!(lines[1].text, "→ Data Extraction");
    assert_eq!(lines[9].text, "  Speed Optimization");
    assert_eq!(lines[9].row, 13);
}

#[test]
fn input_step_reads_one_key() {
    assert_eq!(input_step(Key::Esc), InputStep::Cancelled);
    assert_eq!(input_step(Key::Enter), InputStep::Empty);
    assert_eq!(input_step(Key::Char('7')), InputStep::Typed('7'));
    assert_eq!(input_step(Key::Char('q')), InputStep::Typed('q'));
    assert_eq!(input_step(Key::Up), InputStep::Waiting);
    assert_eq!(input_step(Key::Down), InputStep::Waiting);
    assert_eq!(input_step(Key::Other), InputStep::Waiting);
}

#[test]
fn single_char_tells_one_character_from_more_or_none() {
    assert_eq!(single_char("a"), Some('a'));
    assert_eq!(single_char("→"), Some('→'));
    assert_eq!(single_char(""), None);
    assert_eq!(single_char("ab"), None);
}

#[test]
fn compression_choice_reads_one_two_three() {
    assert_eq!(compression_choice("1"), Some(CompressionLevel::Fast));
    assert_eq!(compression_choice("2"), Some(CompressionLevel::Default));
    assert_eq!(compression_choice("3"), Some(CompressionLevel::Best));
    for other in ["", "0", "4", "11", " 1", "1 ", "one", "+1"] {
        assert_eq!(compression_choice(other), None, "input {:?}", other);
    }
}

#[test]
fn optimization_choice_reads_one_two_three() {
    assert_eq!(optimization_choice("1"), Some(OptimizationLevel::Balanced));
    assert_eq!(optimization_choice("2"), Some(OptimizationLevel::MemoryOptimized));
    assert_eq!(optimization_choice("3"), Some(OptimizationLevel::SpeedOptimized));
    for other in ["", "0", "4", "23", "fast"] {
        assert_eq!(optimization_choice(other), None, "input {:?}", other);
    }
}

#[test]
fn optimization_levels_have_their_labels() {
    assert_eq!(OptimizationLevel::Balanced.label(), "Balanced");
    assert_eq!(OptimizationLevel::MemoryOptimized.label(), "Memory-Optimized");
    assert_eq!(OptimizationLevel::SpeedOptimized.label(), "Speed-Optimized");
}
