use vstd::prelude::*;

verus! {

/// An action bound to a key, run when the command queue is drained.
#[derive(Debug, PartialEq, Eq)]
pub enum Command {
    /// stop the window manager
    Exit,
    /// stop the window manager and ask to be launched again
    Restart,
    /// run a command line through the shell and wait for it
    SpawnProcess(String),
    /// move the input focus to the next monitor
    FocusNextMonitor,
    /// move the input focus to the next window on the same desktop
    FocusNextWindow,
    /// show the given desktop on the focused monitor
    SwitchDesktop(usize),
    /// send the focused window to the given desktop
    MoveWindow(usize),
    /// flip the focused window between tiled and floating
    ToggleFloating,
}

impl Command {
    /// The desktop that the command names, if any.
    pub open spec fn target_desktop(self) -> Option<usize> {
        match self {
            Command::SwitchDesktop(d) => Some(d),
            Command::MoveWindow(d) => Some(d),
            _ => None,
        }
    }

    /// Every desktop that the command names is below `n`.
    pub open spec fn fits_desktops(self, n: nat) -> bool {
        match self.target_desktop() {
            Some(d) => d < n,
            None => true,
        }
    }

    /// A copy of the command.
    pub fn duplicate(&self) -> (r: Command)
        ensures
            r == *self,
    {
        match self {
            Command::Exit => Command::Exit,
            Command::Restart => Command::Restart,
            Command::SpawnProcess(s) => Command::SpawnProcess(s.clone()),
            Command::FocusNextMonitor => Command::FocusNextMonitor,
            Command::FocusNextWindow => Command::FocusNextWindow,
            Command::SwitchDesktop(d) => Command::SwitchDesktop(*d),
            Command::MoveWindow(d) => Command::MoveWindow(*d),
            Command::ToggleFloating => Command::ToggleFloating,
        }
    }
}

/// Bit of the shift key in the display server's key-and-button state mask.
pub const MASK_SHIFT: u16 = 1;

/// Bit of the control key in the key-and-button state mask.
pub const MASK_CONTROL: u16 = 4;

/// Bit of the first modifier (usually Alt) in the key-and-button state mask.
pub const MASK_MOD1: u16 = 8;

/// Bit of the fourth modifier (usually Super) in the key-and-button state mask.
pub const MASK_MOD4: u16 = 64;

/// Bit of the primary pointer button in the key-and-button state mask.
pub const MASK_BUTTON1: u16 = 256;

/// Bit of the secondary pointer button in the key-and-button state mask.
pub const MASK_BUTTON3: u16 = 1024;

/// A modifier key.
#[derive(Clone, Copy, Debug, PartialEq, Eq, Structural)]
pub enum Modifier {
    Shift,
    Control,
    Super,
    Alt,
}

/// The state-mask bit of a modifier key.
pub open spec fn modifier_bit(m: Modifier) -> u16 {
    match m {
        Modifier::Shift => MASK_SHIFT,
        Modifier::Control => MASK_CONTROL,
        Modifier::Super => MASK_MOD4,
        Modifier::Alt => MASK_MOD1,
    }
}

impl Modifier {
    /// The bit of this modifier in a key-and-button state mask.
    pub open spec fn keybutmask_spec(self) -> u16 {
        modifier_bit(self)
    }

    /// The bit of this modifier in a key-and-button state mask.
    pub fn keybutmask(&self) -> (r: u16)
        ensures
            r == modifier_bit(*self),
    {
        match self {
            Modifier::Shift => MASK_SHIFT,
            Modifier::Control => MASK_CONTROL,
            Modifier::Super => MASK_MOD4,
            Modifier::Alt => MASK_MOD1,
        }
    }

    /// The bit of this modifier in a modifier mask, which uses the same
    /// positions as the key-and-button state mask.
    pub fn modmask(&self) -> (r: u16)
        ensures
            r == modifier_bit(*self),
    {
        self.keybutmask()
    }
}

/// The mask of a set of modifier keys.
pub open spec fn modifiers_mask(ms: Seq<Modifier>) -> u16
    decreases ms.len(),
{
    if ms.len() == 0 {
        0
    } else {
        modifiers_mask(ms.drop_last()) | modifier_bit(ms.last())
    }
}

/// The mask that holds each of `modifiers`.
pub fn combined_mask(modifiers: &[Modifier]) -> (r: u16)
    ensures
        r == modifiers_mask(modifiers@),
{
    let mut mask: u16 = 0;
    let mut i: usize = 0;
    while i < modifiers.len()
        invariant
            i <= modifiers@.len(),
            mask == modifiers_mask(modifiers@.take(i as int)),
        decreases modifiers@.len() - i,
    {
        assert(modifiers@.take(i as int + 1).drop_last() == modifiers@.take(i as int));
        mask = mask | modifiers[i].modmask();
        i = i + 1;
    }
    assert(modifiers@.take(i as int) == modifiers@);
    mask
}

} // verus!
