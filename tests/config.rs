use daily::command::{combined_mask, Command, Modifier};
use daily::config::{keybindings, HOT_KEY};

#[test]
fn modifier_masks() {
    assert_eq!(Modifier::Shift.keybutmask(), 1);
    assert_eq!(Modifier::Control.keybutmask(), 4);
    assert_eq!(Modifier::Alt.keybutmask(), 8);
    assert_eq!(Modifier::Super.keybutmask(), 64);
    assert_eq!(Modifier::Super.modmask(), 64);
    assert_eq!(combined_mask(&[Modifier::Super, Modifier::Shift]), 65);
    assert_eq!(combined_mask(&[]), 0);
}

#[test]
fn default_bindings() {
    let list = keybindings();
    assert_eq!(list.len(), 27);
    assert_eq!(list[0].0, &[HOT_KEY, Modifier::Shift][..]);
    assert_eq!(list[0].1, 24);
    assert_eq!(list[0].2, Command::Exit);
    assert_eq!(list[1].2, Command::Restart);
    assert_eq!(list[5].2, Command::SpawnProcess("/usr/bin/dmenu_run".to_string()));
    assert_eq!(list[6].2, Command::SpawnProcess("/usr/bin/xterm".to_string()));
    assert_eq!(list[7].1, 10);
    assert_eq!(list[7].2, Command::SwitchDesktop(0));
    assert_eq!(list[8].0, &[HOT_KEY, Modifier::Shift][..]);
    assert_eq!(list[8].2, Command::MoveWindow(0));
    assert_eq!(list[25].1, 19);
    assert_eq!(list[25].2, Command::SwitchDesktop(9));
    assert_eq!(list[26].2, Command::MoveWindow(9));
}

#[test]
fn duplicate_copies_a_command() {
    let c = Command::SpawnProcess("xterm".to_string());
    assert_eq!(c.duplicate(), c);
}
