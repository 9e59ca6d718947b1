//! What the mascot reads of the desktop, as values computed from what the
//! operating system reported: the cursor, the work area, idle time and the
//! foreground process.
use vstd::prelude::*;
use crate::text::{chars_of, lowercase, same_text, slice_chars, string_from_chars, to_lowercase};

verus! {

/// The cursor position, in screen pixels; `(0, 0)` when the system could
/// not report it.
pub fn cursor_pos(reported: Option<(i32, i32)>) -> (r: (i32, i32))
    ensures
        r == match reported {
            Some(p) => p,
            None => (0i32, 0i32),
        },
{
    match reported {
        Some(p) => p,
        None => (0, 0),
    }
}

/// The screen work area without the taskbar, as `(left, top, right,
/// bottom)`; `(0, 0, 1920, 1040)` when the system could not report it.
pub fn work_area(reported: Option<(i32, i32, i32, i32)>) -> (r: (i32, i32, i32, i32))
    ensures
        r == match reported {
            Some(a) => a,
            None => (0i32, 0i32, 1920i32, 1040i32),
        },
{
    match reported {
        Some(a) => a,
        None => (0, 0, 1920, 1040),
    }
}

/// Milliseconds since the last user input, from the system tick counter
/// (which wraps around); 0 when the last input time is unknown.
pub fn idle_millis(now_tick: u32, last_input_tick: Option<u32>) -> (r: u32)
    ensures
        r == match last_input_tick {
            Some(t) => ((now_tick - t) % 0x1_0000_0000) as u32,
            None => 0u32,
        },
{
    match last_input_tick {
        Some(t) => now_tick.wrapping_sub(t),
        None => 0,
    }
}

/// Whether `c` separates path components (`\` or `/`).
pub open spec fn is_path_sep(c: char) -> bool {
    c == '\\' || c == '/'
}

/// The last component of a path: what follows its last separator.
pub open spec fn last_component(p: Seq<char>) -> Seq<char>
    decreases p.len(),
{
    if p.len() == 0 {
        p
    } else if is_path_sep(p.last()) {
        Seq::empty()
    } else {
        last_component(p.drop_last()).push(p.last())
    }
}

proof fn lemma_last_component_at(s: Seq<char>, j: int)
    requires
        0 <= j <= s.len(),
        forall|i: int| j <= i < s.len() ==> !is_path_sep(#[trigger] s[i]),
        j > 0 ==> is_path_sep(s[j - 1]),
    ensures
        last_component(s) =~= s.skip(j),
    decreases s.len(),
{
    if s.len() > j {
        assert forall|i: int| j <= i < s.drop_last().len() implies !is_path_sep(
            #[trigger] s.drop_last()[i],
        ) by {
            assert(s.drop_last()[i] == s[i]);
        }
        if j > 0 {
            assert(s.drop_last()[j - 1] == s[j - 1]);
        }
        assert(s.last() == s[s.len() - 1]);
        lemma_last_component_at(s.drop_last(), j);
        assert(s.drop_last().skip(j).push(s.last()) =~= s.skip(j));
    } else if s.len() > 0 {
        assert(s.last() == s[j - 1]);
    }
}

/// The file name of a process image path (after its last `\` or `/`).
pub fn image_file_name(path: &str) -> (r: String)
    ensures
        r@ == last_component(path@),
{
    let v = chars_of(path);
    let mut j = v.len();
    while j > 0 && !(v[j - 1] == '\\' || v[j - 1] == '/')
        invariant
            j <= v@.len(),
            forall|i: int| j <= i < v@.len() ==> !is_path_sep(#[trigger] v@[i]),
        decreases j,
    {
        j = j - 1;
    }
    proof {
        lemma_last_component_at(v@, j as int);
    }
    let name = slice_chars(&v, j, v.len());
    string_from_chars(&name)
}

/// A process name from an already lowercased file name: `None` when it is
/// empty.
pub fn process_name(lower: String) -> (r: Option<String>)
    ensures
        lower@.len() == 0 ==> r is None,
        lower@.len() > 0 ==> (r matches Some(n) && n@ == lower@),
{
    if lower.as_str().is_empty() {
        None
    } else {
        Some(lower)
    }
}

/// The foreground process name, lowercased (such as "zed.exe"), from the
/// image path the system reported; `None` when there was none or the name
/// is empty.
pub fn foreground_exe(image_path: Option<String>) -> (r: Option<String>)
    ensures
        match image_path {
            None => r is None,
            Some(p) => {
                let name = lowercase(last_component(p@));
                if name.len() == 0 {
                    r is None
                } else {
                    r matches Some(n) && n@ == name
                }
            },
        },
{
    match image_path {
        None => None,
        Some(p) => {
            let raw = image_file_name(p.as_str());
            let name = to_lowercase(raw.as_str());
            process_name(name)
        },
    }
}

/// Process names of code editors, IDEs and terminals.
pub open spec fn is_editor_name(exe: Seq<char>) -> bool {
    ||| exe == "zed.exe"@
    ||| exe == "code.exe"@
    ||| exe == "cursor.exe"@
    ||| exe == "devenv.exe"@
    ||| exe == "rustrover64.exe"@
    ||| exe == "idea64.exe"@
    ||| exe == "clion64.exe"@
    ||| exe == "pycharm64.exe"@
    ||| exe == "sublime_text.exe"@
    ||| exe == "notepad++.exe"@
    ||| exe == "windowsterminal.exe"@
    ||| exe == "wezterm-gui.exe"@
    ||| exe == "alacritty.exe"@
    ||| exe == "powershell.exe"@
    ||| exe == "pwsh.exe"@
    ||| exe == "cmd.exe"@
}

/// Whether the foreground process is a code editor, IDE or terminal.
pub fn is_editor(exe: &str) -> (r: bool)
    ensures
        r == is_editor_name(exe@),
{
    same_text(exe, "zed.exe") || same_text(exe, "code.exe") || same_text(exe, "cursor.exe")
        || same_text(exe, "devenv.exe") || same_text(exe, "rustrover64.exe") || same_text(
        exe,
        "idea64.exe",
    ) || same_text(exe, "clion64.exe") || same_text(exe, "pycharm64.exe") || same_text(
        exe,
        "sublime_text.exe",
    ) || same_text(exe, "notepad++.exe") || same_text(exe, "windowsterminal.exe") || same_text(
        exe,
        "wezterm-gui.exe",
    ) || same_text(exe, "alacritty.exe") || same_text(exe, "powershell.exe") || same_text(
        exe,
        "pwsh.exe",
    ) || same_text(exe, "cmd.exe")
}

} // verus!
