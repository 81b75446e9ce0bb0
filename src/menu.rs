//! The options of the editor's menu and how a typed option is read.

use vstd::prelude::*;

verus! {

/// An option of the menu: the ten operations `A` to `J`, and the commands
/// around them.
#[derive(Clone, Copy, Debug, PartialEq, Eq, Structural)]
pub enum MenuOpt {
    A,
    B,
    C,
    D,
    E,
    F,
    G,
    H,
    I,
    J,
    No,
    Load,
    Visualize,
    Save,
    Exit,
}

/// The option that a one-letter key selects.
pub open spec fn option_of_key(c: char) -> Option<MenuOpt> {
    if c == 'a' {
        Some(MenuOpt::A)
    } else if c == 'b' {
        Some(MenuOpt::B)
    } else if c == 'c' {
        Some(MenuOpt::C)
    } else if c == 'd' {
        Some(MenuOpt::D)
    } else if c == 'e' {
        Some(MenuOpt::E)
    } else if c == 'f' {
        Some(MenuOpt::F)
    } else if c == 'g' {
        Some(MenuOpt::G)
    } else if c == 'h' {
        Some(MenuOpt::H)
    } else if c == 'i' {
        Some(MenuOpt::I)
    } else if c == 'j' {
        Some(MenuOpt::J)
    } else if c == 'n' {
        Some(MenuOpt::No)
    } else if c == 'l' {
        Some(MenuOpt::Load)
    } else if c == 'v' {
        Some(MenuOpt::Visualize)
    } else if c == 's' {
        Some(MenuOpt::Save)
    } else if c == 'q' {
        Some(MenuOpt::Exit)
    } else {
        None
    }
}

/// The option that the text `s` selects: a single key, or nothing.
pub open spec fn option_of(s: Seq<char>) -> Option<MenuOpt> {
    if s.len() == 1 {
        option_of_key(s[0])
    } else {
        None
    }
}

/// Reads an option typed as a single key.
pub fn parse_option(option: &str) -> (r: Option<MenuOpt>)
    ensures
        r == option_of(option@),
{
    if option.unicode_len() != 1 {
        return None;
    }
    let c = option.get_char(0);
    match c {
        'a' => Some(MenuOpt::A),
        'b' => Some(MenuOpt::B),
        'c' => Some(MenuOpt::C),
        'd' => Some(MenuOpt::D),
        'e' => Some(MenuOpt::E),
        'f' => Some(MenuOpt::F),
        'g' => Some(MenuOpt::G),
        'h' => Some(MenuOpt::H),
        'i' => Some(MenuOpt::I),
        'j' => Some(MenuOpt::J),
        'n' => Some(MenuOpt::No),
        'l' => Some(MenuOpt::Load),
        'v' => Some(MenuOpt::Visualize),
        's' => Some(MenuOpt::Save),
        'q' => Some(MenuOpt::Exit),
        _ => None,
    }
}

} // verus!
