//! The main menu: what each key press does to it.
//!
//! Nothing here reads a key or draws a line. The caller reads the key, hands
//! it to the menu, and carries out the action that comes back.

use vstd::prelude::*;

verus! {

/// The number of features that the menu offers.
pub const FEATURE_COUNT: usize = 10;

/// The row of the screen on which the first feature stands.
pub const FIRST_ROW: u16 = 4;

/// A feature that the menu offers, in the order of the menu.
#[derive(Clone, Copy, Debug, PartialEq, Eq, Structural)]
pub enum Feature {
    FastReading,
    DataExtraction,
    DataValidation,
    FileCompression,
    MultiFileProcessing,
    CustomDataTypes,
    ErrorChecking,
    PrettyPrinting,
    MultiLanguageSupport,
    SpeedOptimization,
}

impl Feature {
    /// The place of this feature in the menu, counted from 0.
    pub open spec fn position(self) -> nat {
        match self {
            Feature::FastReading => 0,
            Feature::DataExtraction => 1,
            Feature::DataValidation => 2,
            Feature::FileCompression => 3,
            Feature::MultiFileProcessing => 4,
            Feature::CustomDataTypes => 5,
            Feature::ErrorChecking => 6,
            Feature::PrettyPrinting => 7,
            Feature::MultiLanguageSupport => 8,
            Feature::SpeedOptimization => 9,
        }
    }

    /// The title under which the menu lists this feature.
    pub open spec fn title_text(self) -> Seq<char> {
        match self {
            Feature::FastReading => "Fast Reading"@,
            Feature::DataExtraction => "Data Extraction"@,
            Feature::DataValidation => "Data Validation"@,
            Feature::FileCompression => "File Compression"@,
            Feature::MultiFileProcessing => "Multi-File Processing"@,
            Feature::CustomDataTypes => "Custom Data Types"@,
            Feature::ErrorChecking => "Error Checking"@,
            Feature::PrettyPrinting => "Pretty Printing"@,
            Feature::MultiLanguageSupport => "Multi-Language Support"@,
            Feature::SpeedOptimization => "Speed Optimization"@,
        }
    }

    /// The feature at a place of the menu.
    pub fn at(position: usize) -> (feature: Option<Feature>)
        ensures
            match feature {
                Some(found) => found.position() == position,
                None => position >= FEATURE_COUNT,
            },
    {
        match position {
            0 => Some(Feature::FastReading),
            1 => Some(Feature::DataExtraction),
            2 => Some(Feature::DataValidation),
            3 => Some(Feature::FileCompression),
            4 => Some(Feature::MultiFileProcessing),
            5 => Some(Feature::CustomDataTypes),
            6 => Some(Feature::ErrorChecking),
            7 => Some(Feature::PrettyPrinting),
            8 => Some(Feature::MultiLanguageSupport),
            9 => Some(Feature::SpeedOptimization),
            _ => None,
        }
    }

    /// The title under which the menu lists this feature.
    pub fn title(self) -> (title: &'static str)
        ensures
            title@ == self.title_text(),
    {
        match self {
            Feature::FastReading => "Fast Reading",
            Feature::DataExtraction => "Data Extraction",
            Feature::DataValidation => "Data Validation",
            Feature::FileCompression => "File Compression",
            Feature::MultiFileProcessing => "Multi-File Processing",
            Feature::CustomDataTypes => "Custom Data Types",
            Feature::ErrorChecking => "Error Checking",
            Feature::PrettyPrinting => "Pretty Printing",
            Feature::MultiLanguageSupport => "Multi-Language Support",
            Feature::SpeedOptimization => "Speed Optimization",
        }
    }
}

/// A key press, as far as the menu tells keys apart.
#[derive(Clone, Copy, Debug, PartialEq, Eq, Structural)]
pub enum Key {
    Up,
    Down,
    Enter,
    Esc,
    Char(char),
    Other,
}

/// What the caller does after a key press.
#[derive(Clone, Copy, Debug, PartialEq, Eq, Structural)]
pub enum MenuAction {
    /// Draw the menu again and wait for the next key.
    Stay,
    /// Run the feature, then come back to the menu.
    Run(Feature),
    /// Leave the program.
    Quit,
}

/// One line of the drawn menu.
#[derive(Debug, PartialEq, Eq)]
pub struct MenuLine {
    /// The row of the screen on which the line stands.
    pub row: u16,
    /// The marker and the title.
    pub text: String,
    /// Whether this is the line of the selected feature.
    pub selected: bool,
}

/// The text of a menu line: an arrow before the selected feature's title, two
/// blanks before any other.
pub open spec fn line_text(feature: Feature, selected: bool) -> Seq<char> {
    if selected {
        "→ "@ + feature.title_text()
    } else {
        "  "@ + feature.title_text()
    }
}

/// The place one step down from `selected`, the first after the last.
pub open spec fn next_place(selected: nat) -> nat {
    (selected + 1) % (FEATURE_COUNT as nat)
}

/// The place one step up from `selected`, the last before the first.
pub open spec fn previous_place(selected: nat) -> nat {
    ((selected + FEATURE_COUNT - 1) % (FEATURE_COUNT as int)) as nat
}

/// The menu: which of its features is selected.
pub struct Menu {
    selected: usize,
}

impl Menu {
    #[verifier::type_invariant]
    spec fn in_range(self) -> bool {
        self.selected < FEATURE_COUNT
    }

    /// The place of the selected feature, counted from 0.
    pub closed spec fn place(self) -> nat {
        self.selected as nat
    }

    /// A menu with its first feature selected.
    pub fn new() -> (menu: Menu)
        ensures
            menu.place() == 0,
    {
        Menu { selected: 0 }
    }

    /// The place of the selected feature, counted from 0.
    pub fn selected(&self) -> (place: usize)
        ensures
            place == self.place(),
            place < FEATURE_COUNT,
    {
        proof {
            use_type_invariant(self);
        }
        self.selected
    }

    /// Takes a key press. The arrows move the selection, around the ends;
    /// Enter runs the selected feature; `q` quits; any other key does
    /// nothing.
    pub fn press(&mut self, key: Key) -> (action: MenuAction)
        ensures
            final(self).place() == match key {
                Key::Up => previous_place(old(self).place()),
                Key::Down => next_place(old(self).place()),
                _ => old(self).place(),
            },
            match key {
                Key::Enter => action matches MenuAction::Run(feature) && feature.position() == old(
                    self,
                ).place(),
                Key::Char(c) => action == if c == 'q' {
                    MenuAction::Quit
                } else {
                    MenuAction::Stay
                },
                _ => action == MenuAction::Stay,
            },
    {
        proof {
            use_type_invariant(&*self);
        }
        match key {
            Key::Up => {
                self.selected = (self.selected + FEATURE_COUNT - 1) % FEATURE_COUNT;
                MenuAction::Stay
            },
            Key::Down => {
                self.selected = (self.selected + 1) % FEATURE_COUNT;
                MenuAction::Stay
            },
            Key::Enter => match Feature::at(self.selected) {
                Some(feature) => MenuAction::Run(feature),
                None => MenuAction::Stay,
            },
            Key::Char(c) => if c == 'q' {
                MenuAction::Quit
            } else {
                MenuAction::Stay
            },
            _ => MenuAction::Stay,
        }
    }

    /// The lines of the drawn menu, from the first feature to the last.
    pub fn lines(&self) -> (lines: Vec<MenuLine>)
        ensures
            lines.len() == FEATURE_COUNT,
            forall|i: int|
                0 <= i < FEATURE_COUNT ==> {
                    let line = #[trigger] lines[i];
                    &&& line.row == FIRST_ROW + i
                    &&& line.selected == (i == self.place())
                    &&& exists|feature: Feature|
                        feature.position() == i && line.text@ == line_text(feature, line.selected)
                },
    {
        let mut lines: Vec<MenuLine> = Vec::new();
        let mut at: usize = 0;
        while at < FEATURE_COUNT
            invariant
                at <= FEATURE_COUNT,
                lines.len() == at,
                forall|i: int|
                    0 <= i < at ==> {
                        let line = #[trigger] lines[i];
                        &&& line.row == FIRST_ROW + i
                        &&& line.selected == (i == self.place())
                        &&& exists|feature: Feature|
                            feature.position() == i && line.text@ == line_text(
                                feature,
                                line.selected,
                            )
                    },
            decreases FEATURE_COUNT - at,
        {
            match Feature::at(at) {
                Some(feature) => {
                    let selected = at == self.selected;
                    let marker = if selected {
                        "→ "
                    } else {
                        "  "
                    };
                    let text = marker.to_owned().concat(feature.title());
                    lines.push(MenuLine { row: FIRST_ROW + at as u16, text, selected });
                },
                None => {},
            }
            at += 1;
        }
        lines
    }
}

/// What a key press means while a line of input is awaited.
#[derive(Clone, Copy, Debug, PartialEq, Eq, Structural)]
pub enum InputStep {
    /// Esc: the input is given up.
    Cancelled,
    /// Enter: the input is the empty text.
    Empty,
    /// A character: the input is that character.
    Typed(char),
    /// Any other key: keep waiting.
    Waiting,
}

/// What `key` means while a line of input is awaited.
pub fn input_step(key: Key) -> (step: InputStep)
    ensures
        step == match key {
            Key::Esc => InputStep::Cancelled,
            Key::Enter => InputStep::Empty,
            Key::Char(c) => InputStep::Typed(c),
            _ => InputStep::Waiting,
        },
{
    match key {
        Key::Esc => InputStep::Cancelled,
        Key::Enter => InputStep::Empty,
        Key::Char(c) => InputStep::Typed(c),
        _ => InputStep::Waiting,
    }
}

} // verus!
