//! What keys and function-bar buttons ask for.
use vstd::prelude::*;
use crate::state::FuncAction;

verus! {

/// A command given from the keyboard.
#[derive(Copy, Clone, PartialEq, Eq, Structural, Debug)]
pub enum KeyCommand {
    /// Backspace: to the folder above.
    GoUp,
    /// A function key.
    Func(FuncAction),
}

/// The command of a virtual-key code: Backspace goes up; F1, F3 to F8 and
/// F10 run their actions; other keys do nothing.
pub open spec fn key_command_spec(vk: u32) -> Option<KeyCommand> {
    if vk == 0x08 { Some(KeyCommand::GoUp) }
    else if vk == 0x70 { Some(KeyCommand::Func(FuncAction::Help)) }
    else if vk == 0x72 { Some(KeyCommand::Func(FuncAction::View)) }
    else if vk == 0x73 { Some(KeyCommand::Func(FuncAction::Edit)) }
    else if vk == 0x74 { Some(KeyCommand::Func(FuncAction::Copy)) }
    else if vk == 0x75 { Some(KeyCommand::Func(FuncAction::Move)) }
    else if vk == 0x76 { Some(KeyCommand::Func(FuncAction::Mkdir)) }
    else if vk == 0x77 { Some(KeyCommand::Func(FuncAction::Delete)) }
    else if vk == 0x79 { Some(KeyCommand::Func(FuncAction::Quit)) }
    else { None }
}

/// The command of a key press.
pub fn key_command(vk: u32) -> (r: Option<KeyCommand>)
    ensures
        r == key_command_spec(vk),
{
    match vk {
        0x08 => Some(KeyCommand::GoUp),
        0x70 => Some(KeyCommand::Func(FuncAction::Help)),
        0x72 => Some(KeyCommand::Func(FuncAction::View)),
        0x73 => Some(KeyCommand::Func(FuncAction::Edit)),
        0x74 => Some(KeyCommand::Func(FuncAction::Copy)),
        0x75 => Some(KeyCommand::Func(FuncAction::Move)),
        0x76 => Some(KeyCommand::Func(FuncAction::Mkdir)),
        0x77 => Some(KeyCommand::Func(FuncAction::Delete)),
        0x79 => Some(KeyCommand::Func(FuncAction::Quit)),
        _ => None,
    }
}

/// The number of buttons on the function-key bar.
pub const FUNC_BUTTONS: usize = 9;

/// The action of the function-bar button at `i`, left to right: F1 help,
/// F3 view, F4 edit, F5 copy, F6 move, F7 folder, F8 delete, F9 menu,
/// F10 quit.
pub open spec fn button_action_spec(i: int) -> Option<FuncAction> {
    if i == 0 { Some(FuncAction::Help) }
    else if i == 1 { Some(FuncAction::View) }
    else if i == 2 { Some(FuncAction::Edit) }
    else if i == 3 { Some(FuncAction::Copy) }
    else if i == 4 { Some(FuncAction::Move) }
    else if i == 5 { Some(FuncAction::Mkdir) }
    else if i == 6 { Some(FuncAction::Delete) }
    else if i == 7 { Some(FuncAction::Menu) }
    else if i == 8 { Some(FuncAction::Quit) }
    else { None }
}

/// The label of the function-bar button at `i`: its key and a word.
pub open spec fn button_label_spec(i: int) -> Seq<char> {
    if i == 0 { "F1 도움말"@ }
    else if i == 1 { "F3 보기"@ }
    else if i == 2 { "F4 편집"@ }
    else if i == 3 { "F5 복사"@ }
    else if i == 4 { "F6 이동"@ }
    else if i == 5 { "F7 폴더"@ }
    else if i == 6 { "F8 삭제"@ }
    else if i == 7 { "F9 메뉴"@ }
    else { "F10 종료"@ }
}

/// The label and action of the function-bar button at `i`.
pub fn func_button(i: usize) -> (r: Option<(&'static str, FuncAction)>)
    ensures
        match (r, button_action_spec(i as int)) {
            (Some((l, a)), Some(b)) => a == b && l@ == button_label_spec(i as int),
            (None, None) => true,
            _ => false,
        },
{
    match i {
        0 => Some(("F1 도움말", FuncAction::Help)),
        1 => Some(("F3 보기", FuncAction::View)),
        2 => Some(("F4 편집", FuncAction::Edit)),
        3 => Some(("F5 복사", FuncAction::Copy)),
        4 => Some(("F6 이동", FuncAction::Move)),
        5 => Some(("F7 폴더", FuncAction::Mkdir)),
        6 => Some(("F8 삭제", FuncAction::Delete)),
        7 => Some(("F9 메뉴", FuncAction::Menu)),
        8 => Some(("F10 종료", FuncAction::Quit)),
        _ => None,
    }
}

/// Every function key the keyboard handles runs the same action as the
/// bar's button for it.
pub proof fn law_keys_match_buttons(vk: u32)
    ensures
        key_command_spec(vk) matches Some(KeyCommand::Func(a)) ==> exists|i: int| 0 <= i < 9 && button_action_spec(i) == Some(a),
{
    if let Some(KeyCommand::Func(a)) = key_command_spec(vk) {
        if a == FuncAction::Help { assert(button_action_spec(0) == Some(a)); }
        if a == FuncAction::View { assert(button_action_spec(1) == Some(a)); }
        if a == FuncAction::Edit { assert(button_action_spec(2) == Some(a)); }
        if a == FuncAction::Copy { assert(button_action_spec(3) == Some(a)); }
        if a == FuncAction::Move { assert(button_action_spec(4) == Some(a)); }
        if a == FuncAction::Mkdir { assert(button_action_spec(5) == Some(a)); }
        if a == FuncAction::Delete { assert(button_action_spec(6) == Some(a)); }
        if a == FuncAction::Quit { assert(button_action_spec(8) == Some(a)); }
    }
}

} // verus!
