//! The light and dark theme modes of the shell.
use vstd::prelude::*;

verus! {

/// Which of the two shipped themes the shell is rendering.
#[derive(Clone, Copy, Debug, PartialEq, Eq, Structural)]
pub enum ThemeMode {
    Light,
    Dark,
}

impl ThemeMode {
    /// The other mode.
    pub open spec fn flipped(self) -> ThemeMode {
        match self {
            ThemeMode::Light => ThemeMode::Dark,
            ThemeMode::Dark => ThemeMode::Light,
        }
    }

    /// Returns the serialized theme token used in the shell DOM.
    pub fn as_str(self) -> (r: &'static str)
        ensures
            r@ == (match self {
                ThemeMode::Light => "light"@,
                ThemeMode::Dark => "dark"@,
            }),
    {
        match self {
            ThemeMode::Light => "light",
            ThemeMode::Dark => "dark",
        }
    }

    /// Switches between light and dark theme modes.
    pub fn toggle(self) -> (r: Self)
        ensures
            r == self.flipped(),
            r != self,
    {
        match self {
            ThemeMode::Light => ThemeMode::Dark,
            ThemeMode::Dark => ThemeMode::Light,
        }
    }

    /// Returns the label shown by the theme toggle control.
    pub fn label(self) -> (r: &'static str)
        ensures
            r@ == (match self {
                ThemeMode::Light => "Light"@,
                ThemeMode::Dark => "Dark"@,
            }),
    {
        match self {
            ThemeMode::Light => "Light",
            ThemeMode::Dark => "Dark",
        }
    }
}

impl Default for ThemeMode {
    /// The shell starts in light mode.
    fn default() -> (r: Self)
        ensures
            r == ThemeMode::Light,
    {
        ThemeMode::Light
    }
}

/// Toggling twice returns to the starting mode.
pub proof fn lemma_toggle_twice(mode: ThemeMode)
    ensures
        mode.flipped().flipped() == mode,
{
}

} // verus!
