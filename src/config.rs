use vstd::prelude::*;

use crate::command::{Command, Modifier};

verus! {

/// Width of the border drawn around every managed window, in pixels.
pub const WINDOW_BORDER_WIDTH: u32 = 1;

/// Distance from a monitor's edges and center within which a dragged window snaps.
pub const SNAPPING_WIDTH: u32 = 64;

/// Number of virtual desktops.
pub const NUM_DESKTOPS: usize = 20;

/// The modifier that every default binding and every drag holds.
pub const HOT_KEY: Modifier = Modifier::Super;

/// Command line run whenever a display output is connected or disconnected;
/// a script that arranges the outputs fits here.
pub const MONITOR_UPDATE_PROG: &'static str = "echo 'monitor changed'";

pub const KEYCODE_1: u8 = 10;
pub const KEYCODE_2: u8 = 11;
pub const KEYCODE_3: u8 = 12;
pub const KEYCODE_4: u8 = 13;
pub const KEYCODE_5: u8 = 14;
pub const KEYCODE_6: u8 = 15;
pub const KEYCODE_7: u8 = 16;
pub const KEYCODE_8: u8 = 17;
pub const KEYCODE_9: u8 = 18;
pub const KEYCODE_0: u8 = 19;
pub const KEYCODE_TAB: u8 = 23;
pub const KEYCODE_Q: u8 = 24;
pub const KEYCODE_R: u8 = 27;
pub const KEYCODE_T: u8 = 28;
pub const KEYCODE_P: u8 = 33;
pub const KEYCODE_S: u8 = 39;
pub const KEYCODE_J: u8 = 44;

/// Key code of the digit key for desktop `i`: keys 1 to 9, then 0.
pub open spec fn digit_key(i: int) -> u8 {
    if i < 9 {
        (KEYCODE_1 + i) as u8
    } else {
        KEYCODE_0
    }
}

/// The command line behind a spawning binding.
pub open spec fn spawns(c: Command, line: &str) -> bool {
    match c {
        Command::SpawnProcess(s) => s@ == line@,
        _ => false,
    }
}

/// One default binding: its modifiers, its key code and its command.
pub type Binding = (&'static [Modifier], u8, Command);

/// The entry at `i` holds the modifiers `ms`, the key `k` and the command `c`.
pub open spec fn bound(list: Seq<Binding>, i: int, ms: Seq<Modifier>, k: u8, c: Command) -> bool {
    list[i].0@ == ms && list[i].1 == k && list[i].2 == c
}

/// The default key bindings: quit, restart, focus cycling, floating, two
/// launchers, and for each digit key a desktop switch and a window move.
pub fn keybindings() -> (r: Vec<Binding>)
    ensures
        r@.len() == 27,
        bound(r@, 0, seq![HOT_KEY, Modifier::Shift], KEYCODE_Q, Command::Exit),
        bound(r@, 1, seq![HOT_KEY, Modifier::Shift], KEYCODE_R, Command::Restart),
        bound(r@, 2, seq![HOT_KEY], KEYCODE_J, Command::FocusNextMonitor),
        bound(r@, 3, seq![HOT_KEY], KEYCODE_TAB, Command::FocusNextWindow),
        bound(r@, 4, seq![HOT_KEY], KEYCODE_S, Command::ToggleFloating),
        r@[5].0@ == seq![HOT_KEY] && r@[5].1 == KEYCODE_P && spawns(r@[5].2, "/usr/bin/dmenu_run"),
        r@[6].0@ == seq![HOT_KEY] && r@[6].1 == KEYCODE_T && spawns(r@[6].2, "/usr/bin/xterm"),
        forall|i: int|
            0 <= i < 10 ==> bound(r@, 7 + 2 * i, seq![HOT_KEY], digit_key(i), Command::SwitchDesktop(i as usize)),
        forall|i: int|
            0 <= i < 10 ==> bound(r@, 8 + 2 * i, seq![HOT_KEY, Modifier::Shift], digit_key(i), Command::MoveWindow(i as usize)),
{
    let hot_shift: &'static [Modifier] = &[HOT_KEY, Modifier::Shift];
    let hot: &'static [Modifier] = &[HOT_KEY];
    proof {
        assert(hot_shift@ == seq![HOT_KEY, Modifier::Shift]);
        assert(hot@ == seq![HOT_KEY]);
    }
    let mut list: Vec<Binding> = Vec::new();
    list.push((hot_shift, KEYCODE_Q, Command::Exit));
    list.push((hot_shift, KEYCODE_R, Command::Restart));
    list.push((hot, KEYCODE_J, Command::FocusNextMonitor));
    list.push((hot, KEYCODE_TAB, Command::FocusNextWindow));
    list.push((hot, KEYCODE_S, Command::ToggleFloating));
    list.push((hot, KEYCODE_P, Command::SpawnProcess("/usr/bin/dmenu_run".to_string())));
    list.push((hot, KEYCODE_T, Command::SpawnProcess("/usr/bin/xterm".to_string())));

    let digit_keys: [u8; 10] = [
        KEYCODE_1, KEYCODE_2, KEYCODE_3, KEYCODE_4, KEYCODE_5, KEYCODE_6, KEYCODE_7, KEYCODE_8,
        KEYCODE_9, KEYCODE_0,
    ];
    let mut i: usize = 0;
    while i < 10
        invariant
            i <= 10,
            list@.len() == 7 + 2 * i,
            hot_shift@ == seq![HOT_KEY, Modifier::Shift],
            hot@ == seq![HOT_KEY],
            forall|j: int| 0 <= j < 10 ==> digit_keys@[j] == digit_key(j),
            bound(list@, 0, seq![HOT_KEY, Modifier::Shift], KEYCODE_Q, Command::Exit),
            bound(list@, 1, seq![HOT_KEY, Modifier::Shift], KEYCODE_R, Command::Restart),
            bound(list@, 2, seq![HOT_KEY], KEYCODE_J, Command::FocusNextMonitor),
            bound(list@, 3, seq![HOT_KEY], KEYCODE_TAB, Command::FocusNextWindow),
            bound(list@, 4, seq![HOT_KEY], KEYCODE_S, Command::ToggleFloating),
            list@[5].0@ == seq![HOT_KEY] && list@[5].1 == KEYCODE_P && spawns(list@[5].2, "/usr/bin/dmenu_run"),
            list@[6].0@ == seq![HOT_KEY] && list@[6].1 == KEYCODE_T && spawns(list@[6].2, "/usr/bin/xterm"),
            forall|j: int|
                0 <= j < i ==> bound(list@, 7 + 2 * j, seq![HOT_KEY], digit_key(j), Command::SwitchDesktop(j as usize)),
            forall|j: int|
                0 <= j < i ==> bound(list@, 8 + 2 * j, seq![HOT_KEY, Modifier::Shift], digit_key(j), Command::MoveWindow(j as usize)),
        decreases 10 - i,
    {
        let kc = digit_keys[i];
        list.push((hot, kc, Command::SwitchDesktop(i)));
        list.push((hot_shift, kc, Command::MoveWindow(i)));
        i = i + 1;
    }
    list
}

} // verus!
