//! The save menu: editing the path of the file a game state is saved to.
use vstd::prelude::*;

use super::keys::{ExitRequest, Key, KeyInput, KeyKind, is_exit_chord, pressed_or_held};

verus! {

/// The cursor position in the save menu
#[derive(Debug, Clone, Copy, PartialEq, Eq, Structural)]
pub enum SaveCursorState {
    /// Editing the file name, with the cursor before the character at this index
    FileName(usize),
    /// Hovering over the Confirm button
    Confirm,
}

/// What to do after handling a key in the save menu
#[derive(Debug, Clone, Copy, PartialEq, Eq, Structural)]
pub enum SaveMenuEventResult {
    /// Save the file, then leave the menu
    SaveAndExit,
    /// Leave the menu without saving
    Exit,
    /// Keep showing the menu
    Nothing,
}

/// The path the save menu starts with
pub open spec fn default_save_path() -> Seq<char> {
    seq!['.', '/', 's', 'a', 'v', 'e', 'd', '_', 'g', 'a', 'm', 'e', 's', 't', 'a', 't', 'e', '.', 'j', 's', 'o', 'n']
}

/// The position of a cursor in a path of length `len`: `idx`, or the end of the path
pub open spec fn clamp_index(idx: usize, len: nat) -> nat {
    if idx <= len {
        idx as nat
    } else {
        len
    }
}

/// What a key other than Control+C does to the path and the cursor of the save menu
pub open spec fn save_key_step(path: Seq<char>, cur: SaveCursorState, key: KeyInput) -> (
    Seq<char>,
    SaveCursorState,
    SaveMenuEventResult,
) {
    let len = path.len();
    let end = SaveCursorState::FileName(len as usize);
    if !pressed_or_held(key) {
        (path, cur, SaveMenuEventResult::Nothing)
    } else {
        match (key.key, cur) {
            (Key::Right, SaveCursorState::FileName(i)) => (
                path,
                if i < len {
                    SaveCursorState::FileName((i + 1) as usize)
                } else {
                    end
                },
                SaveMenuEventResult::Nothing,
            ),
            (Key::End, SaveCursorState::FileName(_)) => (path, end, SaveMenuEventResult::Nothing),
            (Key::Left, SaveCursorState::FileName(i)) => (
                path,
                if i > len {
                    end
                } else if i > 0 {
                    SaveCursorState::FileName((i - 1) as usize)
                } else {
                    cur
                },
                SaveMenuEventResult::Nothing,
            ),
            (Key::Home, SaveCursorState::FileName(_)) => (
                path,
                SaveCursorState::FileName(0),
                SaveMenuEventResult::Nothing,
            ),
            (Key::Up, SaveCursorState::Confirm) => (path, end, SaveMenuEventResult::Nothing),
            (Key::Down, SaveCursorState::FileName(_)) => (
                path,
                SaveCursorState::Confirm,
                SaveMenuEventResult::Nothing,
            ),
            (Key::Enter, SaveCursorState::FileName(_)) => (
                path,
                SaveCursorState::Confirm,
                SaveMenuEventResult::Nothing,
            ),
            (Key::Enter, SaveCursorState::Confirm) => (path, cur, SaveMenuEventResult::SaveAndExit),
            (Key::Esc, _) => (path, cur, SaveMenuEventResult::Exit),
            (Key::Char(c), SaveCursorState::FileName(i)) => {
                let j = clamp_index(i, len);
                (path.insert(j as int, c), SaveCursorState::FileName((j + 1) as usize), SaveMenuEventResult::Nothing)
            },
            (Key::Backspace, SaveCursorState::FileName(i)) => {
                let j = clamp_index(i, len);
                if j > 0 {
                    (path.remove(j - 1), SaveCursorState::FileName((j - 1) as usize), SaveMenuEventResult::Nothing)
                } else {
                    (path, cur, SaveMenuEventResult::Nothing)
                }
            },
            (Key::Delete, SaveCursorState::FileName(i)) => {
                let j = clamp_index(i, len);
                if j < len {
                    (path.remove(j as int), SaveCursorState::FileName(j as usize), SaveMenuEventResult::Nothing)
                } else {
                    (path, cur, SaveMenuEventResult::Nothing)
                }
            },
            _ => (path, cur, SaveMenuEventResult::Nothing),
        }
    }
}

/// Backspace with the cursor at `i`, `0 < i <= len`, removes the character just before the
/// cursor, keeps the others in order, and leaves the cursor where that character was; typing
/// that character again then gives back the path and the cursor there were.
pub proof fn lemma_backspace_then_retype(path: Seq<char>, i: usize, bs: KeyInput, ch: KeyInput)
    requires
        0 < i <= path.len(),
        pressed_or_held(bs),
        bs.key == Key::Backspace,
        pressed_or_held(ch),
        !ch.control,
        ch.key == Key::Char(path[i - 1]),
    ensures
        save_key_step(path, SaveCursorState::FileName(i), bs).0 == path.take(i - 1) + path.skip(i as int),
        save_key_step(path, SaveCursorState::FileName(i), bs).1 == SaveCursorState::FileName((i - 1) as usize),
        ({
            let (p1, c1, _) = save_key_step(path, SaveCursorState::FileName(i), bs);
            &&& save_key_step(p1, c1, ch).0 == path
            &&& save_key_step(p1, c1, ch).1 == SaveCursorState::FileName(i)
        }),
{
    let p1 = save_key_step(path, SaveCursorState::FileName(i), bs).0;
    assert(p1 =~= path.take(i - 1) + path.skip(i as int));
    assert(p1.insert(i - 1, path[i - 1]) =~= path);
}

/// The state of the save menu: the path being edited, the cursor, and the message of the
/// last failed attempt to save (empty when there is none)
pub struct SaveMenuState {
    filepath: Vec<char>,
    c_state: SaveCursorState,
    last_err_msg: String,
}

impl SaveMenuState {
    /// The path the game state is to be saved to
    pub closed spec fn path(&self) -> Seq<char> {
        self.filepath@
    }

    /// The cursor position
    pub closed spec fn cursor(&self) -> SaveCursorState {
        self.c_state
    }

    /// The message of the last failed attempt to save, empty when there is none
    pub closed spec fn err_msg(&self) -> Seq<char> {
        self.last_err_msg@
    }

    /// The save menu as it opens: the default path, with the cursor at its end
    pub fn new() -> (r: Self)
        ensures
            r.path() == default_save_path(),
            r.cursor() == SaveCursorState::FileName(default_save_path().len() as usize),
            r.err_msg().len() == 0,
    {
        let filepath = vec![
            '.', '/', 's', 'a', 'v', 'e', 'd', '_', 'g', 'a', 'm', 'e', 's', 't', 'a', 't', 'e', '.', 'j', 's', 'o', 'n'
        ];
        let len = filepath.len();
        assert(filepath@ =~= default_save_path());
        SaveMenuState { filepath, c_state: SaveCursorState::FileName(len), last_err_msg: String::new() }
    }

    /// The path the game state is to be saved to
    pub fn filepath(&self) -> (r: &Vec<char>)
        ensures
            r@ == self.path(),
    {
        &self.filepath
    }

    /// The cursor position
    pub fn cursor_state(&self) -> (r: SaveCursorState)
        ensures
            r == self.cursor(),
    {
        self.c_state
    }

    /// The message of the last failed attempt to save, empty when there is none
    pub fn last_err_msg(&self) -> (r: &String)
        ensures
            r@ == self.err_msg(),
    {
        &self.last_err_msg
    }

    /// Shows the message of a failed attempt to save
    pub fn update_err_msg(&mut self, msg: String)
        ensures
            final(self).err_msg() == msg@,
            final(self).path() == old(self).path(),
            final(self).cursor() == old(self).cursor(),
    {
        self.last_err_msg = msg;
    }

    /// Hides the message of the last failed attempt to save
    pub fn clear_err_msg(&mut self)
        ensures
            final(self).err_msg().len() == 0,
            final(self).path() == old(self).path(),
            final(self).cursor() == old(self).cursor(),
    {
        self.last_err_msg = String::new();
    }

    /// Handles a key event.
    ///
    /// Any key going down first hides the message of a failed attempt to save. Control+C asks
    /// to leave the program; otherwise the path and the cursor change as [save_key_step] says.
    pub fn handle_key(&mut self, key: KeyInput) -> (r: Result<SaveMenuEventResult, ExitRequest>)
        ensures
            (key.kind == KeyKind::Press && old(self).err_msg().len() > 0) ==> final(self).err_msg().len() == 0,
            !(key.kind == KeyKind::Press && old(self).err_msg().len() > 0) ==> final(self).err_msg() == old(self).err_msg(),
            is_exit_chord(key) ==> r == Err::<SaveMenuEventResult, _>(ExitRequest) && final(self).path()
                == old(self).path() && final(self).cursor() == old(self).cursor(),
            !is_exit_chord(key) ==> ({
                let (path, cur, res) = save_key_step(old(self).path(), old(self).cursor(), key);
                r == Ok::<_, ExitRequest>(res) && final(self).path() == path && final(self).cursor() == cur
            }),
    {
        if key.kind == KeyKind::Press && !self.last_err_msg.as_str().is_empty() {
            self.clear_err_msg();
        }
        if key.is_exit_chord() {
            return Err(ExitRequest);
        }
        if !key.pressed_or_held() {
            return Ok(SaveMenuEventResult::Nothing);
        }
        let len = self.filepath.len();
        match (key.key, self.c_state) {
            (Key::Right, SaveCursorState::FileName(idx)) => {
                if idx < len {
                    self.c_state = SaveCursorState::FileName(idx + 1);
                } else {
                    self.c_state = SaveCursorState::FileName(len);
                }
            },
            (Key::End, SaveCursorState::FileName(_)) => {
                self.c_state = SaveCursorState::FileName(len);
            },
            (Key::Left, SaveCursorState::FileName(idx)) => {
                if idx > len {
                    self.c_state = SaveCursorState::FileName(len);
                } else if idx > 0 {
                    self.c_state = SaveCursorState::FileName(idx - 1);
                }
            },
            (Key::Home, SaveCursorState::FileName(_)) => {
                self.c_state = SaveCursorState::FileName(0);
            },
            (Key::Up, SaveCursorState::Confirm) => {
                self.c_state = SaveCursorState::FileName(len);
            },
            (Key::Down, SaveCursorState::FileName(_)) => {
                self.c_state = SaveCursorState::Confirm;
            },
            (Key::Enter, SaveCursorState::FileName(_)) => {
                self.c_state = SaveCursorState::Confirm;
            },
            (Key::Enter, SaveCursorState::Confirm) => {
                return Ok(SaveMenuEventResult::SaveAndExit);
            },
            (Key::Esc, _) => {
                return Ok(SaveMenuEventResult::Exit);
            },
            (Key::Char(c), SaveCursorState::FileName(idx)) => {
                let idx_to_use = if idx <= len { idx } else { len };
                self.filepath.insert(idx_to_use, c);
                let new_len = self.filepath.len();
                assert(idx_to_use + 1 <= new_len);
                self.c_state = SaveCursorState::FileName(idx_to_use + 1);
            },
            (Key::Backspace, SaveCursorState::FileName(idx)) => {
                let idx_to_use = if idx <= len { idx } else { len };
                if idx_to_use > 0 {
                    self.filepath.remove(idx_to_use - 1);
                    self.c_state = SaveCursorState::FileName(idx_to_use - 1);
                }
            },
            (Key::Delete, SaveCursorState::FileName(idx)) => {
                let idx_to_use = if idx <= len { idx } else { len };
                if idx_to_use < len {
                    self.filepath.remove(idx_to_use);
                    self.c_state = SaveCursorState::FileName(idx_to_use);
                }
            },
            _ => {},
        }
        Ok(SaveMenuEventResult::Nothing)
    }
}

} // verus!
