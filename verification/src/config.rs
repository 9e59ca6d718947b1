//! Start-up settings: the window geometry derived from the screen work
//! area, command-line options, and the names of animation and program files.
use vstd::prelude::*;
use crate::text::{append_chars, chars_eq, chars_of, lowercase, occurs_at_exec, same_text, slice_chars, string_from_chars, to_lowercase};
use crate::voice::{AppIndex, Launch, keys_unique, lookup};

verus! {

/// Window geometry in pixels, derived from the work area of the screen.
#[derive(Clone, Copy, Debug)]
pub struct Config {
    pub work_left: i32,
    pub work_top: i32,
    pub work_w: i32,
    pub work_h: i32,
    pub win_w: i32,
    pub win_h: i32,
}

/// The window is 30 % of the work-area height, with width 66 % of its height
/// (both rounded down); the work-area size is at least one pixel.
pub open spec fn config_spec(area: (i32, i32, i32, i32)) -> Config {
    let (left, top, right, bottom) = area;
    let w = if right - left >= 1 {
        right - left
    } else {
        1
    };
    let h = if bottom - top >= 1 {
        bottom - top
    } else {
        1
    };
    let win_h = (h * 3) / 10;
    let win_w = (win_h * 66) / 100;
    Config {
        work_left: left,
        work_top: top,
        work_w: w as i32,
        work_h: h as i32,
        win_w: win_w as i32,
        win_h: win_h as i32,
    }
}

impl Config {
    /// The geometry for the work area `(left, top, right, bottom)`.
    pub fn from_work_area(area: (i32, i32, i32, i32)) -> (r: Config)
        requires
            i32::MIN <= area.2 - area.0 <= i32::MAX,
            i32::MIN <= area.3 - area.1 <= i32::MAX,
        ensures
            r == config_spec(area),
            1 <= r.work_w,
            1 <= r.work_h,
            0 <= r.win_h <= r.work_h,
            0 <= r.win_w <= r.win_h,
    {
        let (left, top, right, bottom) = area;
        let work_w = if right - left >= 1 {
            right - left
        } else {
            1
        };
        let work_h = if bottom - top >= 1 {
            bottom - top
        } else {
            1
        };
        let win_h = ((work_h as i64) * 3 / 10) as i32;
        let win_w = ((win_h as i64) * 66 / 100) as i32;
        Config { work_left: left, work_top: top, work_w, work_h, win_w, win_h }
    }

    /// Y of the window on the ground: its bottom on the top of the taskbar.
    pub fn ground_y(&self) -> (r: i64)
        ensures
            r == self.work_top + self.work_h - self.win_h,
    {
        self.work_top as i64 + self.work_h as i64 - self.win_h as i64
    }

    /// Leftmost window X.
    pub fn min_x(&self) -> (r: i64)
        ensures
            r == self.work_left,
    {
        self.work_left as i64
    }

    /// Rightmost window X.
    pub fn max_x(&self) -> (r: i64)
        ensures
            r == self.work_left + self.work_w - self.win_w,
    {
        self.work_left as i64 + self.work_w as i64 - self.win_w as i64
    }
}

/// Whether `s` starts with `p`.
pub open spec fn has_prefix(s: Seq<char>, p: Seq<char>) -> bool {
    p.len() <= s.len() && s.take(p.len() as int) == p
}

/// The value of option `name` in `args` (the arguments after the program
/// name): the argument after the first `name`, or what follows `name=` in
/// an argument, whichever comes first.
pub open spec fn arg_value_spec(name: Seq<char>, args: Seq<Seq<char>>) -> Option<Seq<char>>
    decreases args.len(),
{
    if args.len() == 0 {
        None
    } else if args[0] == name {
        if args.len() >= 2 {
            Some(args[1])
        } else {
            None
        }
    } else if has_prefix(args[0], name.push('=')) {
        Some(args[0].skip(name.len() + 1 as int))
    } else {
        arg_value_spec(name, args.drop_first())
    }
}

/// The value of a command-line option, given as `name value` or `name=value`.
pub fn arg_value(name: &str, args: &Vec<String>) -> (r: Option<String>)
    ensures
        match r {
            Some(v) => arg_value_spec(name@, crate::matching::strings_view(args@)) == Some(v@),
            None => arg_value_spec(name@, crate::matching::strings_view(args@)) is None,
        },
{
    let ghost av = crate::matching::strings_view(args@);
    let nv = chars_of(name);
    let mut prefix = chars_of(name);
    prefix.push('=');
    let mut i: usize = 0;
    proof {
        assert(av.skip(0) =~= av);
    }
    while i < args.len()
        invariant
            i <= args@.len(),
            av == crate::matching::strings_view(args@),
            nv@ == name@,
            prefix@ == name@.push('='),
            arg_value_spec(name@, av) == arg_value_spec(name@, av.skip(i as int)),
        decreases args@.len() - i,
    {
        proof {
            assert(av.skip(i as int)[0] == args@[i as int]@);
            assert(av.skip(i as int).drop_first() =~= av.skip(i + 1));
        }
        let a = chars_of(args[i].as_str());
        if chars_eq(&a, &nv) {
            if i + 1 < args.len() {
                proof {
                    assert(av.skip(i as int)[1] == args@[i + 1]@);
                }
                return Some(args[i + 1].clone());
            }
            return None;
        }
        if occurs_at_exec(&a, &prefix, 0) {
            proof {
                assert(a@.subrange(0, prefix@.len() as int) =~= a@.take(prefix@.len() as int));
            }
            let rest = slice_chars(&a, prefix.len(), a.len());
            proof {
                assert(rest@ =~= a@.skip(name@.len() + 1 as int));
            }
            return Some(string_from_chars(&rest));
        } else {
            proof {
                if has_prefix(a@, name@.push('=')) {
                    assert(a@.subrange(0, prefix@.len() as int) =~= a@.take(prefix@.len() as int));
                }
            }
        }
        i = i + 1;
    }
    None
}

/// Graphics back ends to render with.
#[derive(Clone, Copy, PartialEq, Eq, Debug, Structural)]
pub enum Backend {
    Vulkan,
    Dx12,
    All,
}

/// The back end chosen by the `--backend` option (or the environment):
/// "auto" or nothing -> Vulkan, "vulkan", "dx12", "all"; anything else is
/// unknown and falls back to Vulkan. The flag tells whether it was known.
pub fn render_backend(choice: Option<&str>) -> (r: (Backend, bool))
    ensures
        r == match choice {
            None => (Backend::Vulkan, true),
            Some(c) => if c@ == "auto"@ || c@ == "vulkan"@ {
                (Backend::Vulkan, true)
            } else if c@ == "dx12"@ {
                (Backend::Dx12, true)
            } else if c@ == "all"@ {
                (Backend::All, true)
            } else {
                (Backend::Vulkan, false)
            },
        },
{
    match choice {
        None => (Backend::Vulkan, true),
        Some(c) => if same_text(c, "auto") || same_text(c, "vulkan") {
            (Backend::Vulkan, true)
        } else if same_text(c, "dx12") {
            (Backend::Dx12, true)
        } else if same_text(c, "all") {
            (Backend::All, true)
        } else {
            (Backend::Vulkan, false)
        },
    }
}

/// How the transparent window is composited.
#[derive(Clone, Copy, PartialEq, Eq, Debug, Structural)]
pub enum AlphaMode {
    Auto,
    Opaque,
    PreMultiplied,
    PostMultiplied,
    Inherit,
}

/// The compositing mode chosen by the `--alpha` option (or the environment):
/// "auto", "opaque", "pre" or nothing -> pre-multiplied, "post", "inherit";
/// anything else is unknown and falls back to pre-multiplied.
pub fn alpha_mode(choice: Option<&str>) -> (r: (AlphaMode, bool))
    ensures
        r == match choice {
            None => (AlphaMode::PreMultiplied, true),
            Some(c) => if c@ == "auto"@ {
                (AlphaMode::Auto, true)
            } else if c@ == "opaque"@ {
                (AlphaMode::Opaque, true)
            } else if c@ == "pre"@ {
                (AlphaMode::PreMultiplied, true)
            } else if c@ == "post"@ {
                (AlphaMode::PostMultiplied, true)
            } else if c@ == "inherit"@ {
                (AlphaMode::Inherit, true)
            } else {
                (AlphaMode::PreMultiplied, false)
            },
        },
{
    match choice {
        None => (AlphaMode::PreMultiplied, true),
        Some(c) => if same_text(c, "auto") {
            (AlphaMode::Auto, true)
        } else if same_text(c, "opaque") {
            (AlphaMode::Opaque, true)
        } else if same_text(c, "pre") {
            (AlphaMode::PreMultiplied, true)
        } else if same_text(c, "post") {
            (AlphaMode::PostMultiplied, true)
        } else if same_text(c, "inherit") {
            (AlphaMode::Inherit, true)
        } else {
            (AlphaMode::PreMultiplied, false)
        },
    }
}

pub open spec fn vrma_suffix() -> Seq<char> {
    seq!['.', 'v', 'r', 'm', 'a']
}

/// Whether `s` ends with `p`.
pub open spec fn has_suffix(s: Seq<char>, p: Seq<char>) -> bool {
    p.len() <= s.len() && s.skip(s.len() - p.len()) == p
}

/// `s` without any number of trailing `.vrma`.
pub open spec fn trim_vrma(s: Seq<char>) -> Seq<char>
    decreases s.len(),
{
    if s.len() >= 5 && has_suffix(s, vrma_suffix()) {
        trim_vrma(s.take(s.len() - 5))
    } else {
        s
    }
}

fn vrma_chars() -> (r: Vec<char>)
    ensures
        r@ == vrma_suffix(),
{
    let mut v: Vec<char> = Vec::new();
    v.push('.');
    v.push('v');
    v.push('r');
    v.push('m');
    v.push('a');
    assert(v@ =~= vrma_suffix());
    v
}

/// The library key of an animation file: its name without `.vrma`.
pub fn anim_key(file_name: &str) -> (r: String)
    ensures
        r@ == trim_vrma(file_name@),
{
    let v = chars_of(file_name);
    let suffix = vrma_chars();
    let mut end = v.len();
    proof {
        assert(v@.take(end as int) =~= v@);
    }
    while end >= 5 && occurs_at_exec(&v, &suffix, end - 5)
        invariant
            end <= v@.len(),
            suffix@ == vrma_suffix(),
            trim_vrma(v@) == trim_vrma(v@.take(end as int)),
        decreases end,
    {
        proof {
            let s = v@.take(end as int);
            assert(s.skip(s.len() - 5) =~= v@.subrange(end - 5, end as int));
            assert(s.take(s.len() - 5) =~= v@.take(end - 5));
        }
        end = end - 5;
    }
    proof {
        let s = v@.take(end as int);
        if s.len() >= 5 && has_suffix(s, vrma_suffix()) {
            assert(s.skip(s.len() - 5) =~= v@.subrange(end - 5, end as int));
        }
    }
    let head = slice_chars(&v, 0, end);
    string_from_chars(&head)
}

/// Whether an already lowercased file name ends with `.vrma`.
pub fn has_vrma_suffix(lower: &str) -> (r: bool)
    ensures
        r == has_suffix(lower@, vrma_suffix()),
{
    let v = chars_of(lower);
    let suffix = vrma_chars();
    if v.len() < 5 {
        return false;
    }
    let r = occurs_at_exec(&v, &suffix, v.len() - 5);
    proof {
        assert(v@.subrange(v@.len() - 5, v@.len() as int) =~= v@.skip(v@.len() - 5));
    }
    r
}

/// Whether a file in the animation folder is an animation: its lowercased
/// name ends with `.vrma`.
pub fn is_anim_file(file_name: &str) -> (r: bool)
    ensures
        r == has_suffix(lowercase(file_name@), vrma_suffix()),
{
    let lower = to_lowercase(file_name);
    has_vrma_suffix(lower.as_str())
}

/// ASCII letters compared without case.
pub open spec fn ascii_fold(c: char) -> char {
    if 'A' <= c <= 'Z' {
        ((c as u32) + 32) as char
    } else {
        c
    }
}

/// Whether a file extension is `lnk` in any ASCII case (a Start Menu shortcut).
pub fn is_shortcut_extension(ext: &str) -> (r: bool)
    ensures
        r == (ext@.len() == 3 && ascii_fold(ext@[0]) == 'l' && ascii_fold(ext@[1]) == 'n'
            && ascii_fold(ext@[2]) == 'k'),
{
    let v = chars_of(ext);
    if v.len() != 3 {
        return false;
    }
    (v[0] == 'l' || v[0] == 'L') && (v[1] == 'n' || v[1] == 'N') && (v[2] == 'k' || v[2] == 'K')
}

/// Programs looked up on the search path when no shortcut has their name.
pub open spec fn path_fallback_spec() -> Seq<Seq<char>> {
    seq!["zed"@, "code"@, "wt"@, "pwsh"@, "powershell"@, "explorer"@]
}

/// The programs looked up on the search path, in order.
pub fn path_fallback_names() -> (r: Vec<String>)
    ensures
        crate::matching::strings_view(r@) == path_fallback_spec(),
{
    let mut r: Vec<String> = Vec::new();
    r.push("zed".to_owned());
    r.push("code".to_owned());
    r.push("wt".to_owned());
    r.push("pwsh".to_owned());
    r.push("powershell".to_owned());
    r.push("explorer".to_owned());
    assert(crate::matching::strings_view(r@) =~= path_fallback_spec());
    r
}

/// File names tried for a program in each search-path directory:
/// `<name>.exe`, then `<name>`.
pub fn exe_candidates(name: &str) -> (r: Vec<String>)
    ensures
        crate::matching::strings_view(r@) == seq![name@ + ".exe"@, name@],
{
    let mut with_ext = chars_of(name);
    let mut ext: Vec<char> = Vec::new();
    ext.push('.');
    ext.push('e');
    ext.push('x');
    ext.push('e');
    proof {
        reveal_strlit(".exe");
        assert(ext@ =~= ".exe"@);
    }
    append_chars(&mut with_ext, &ext);
    let mut r: Vec<String> = Vec::new();
    r.push(string_from_chars(&with_ext));
    r.push(name.to_owned());
    assert(crate::matching::strings_view(r@) =~= seq![name@ + ".exe"@, name@]);
    r
}

impl AppIndex {
    /// Registers a Start Menu shortcut under its lowercased file stem; a name
    /// already present keeps its earlier entry.
    pub fn add_shortcut(&mut self, stem: &str, path: String) -> (added: bool)
        ensures
            added == (lookup(old(self)@, lowercase(stem@)) is None),
            final(self)@ == if added {
                old(self)@.push((lowercase(stem@), Launch::Shortcut(path)))
            } else {
                old(self)@
            },
            keys_unique(final(self)@) == keys_unique(old(self)@),
    {
        let key = to_lowercase(stem);
        self.insert_if_absent(key, Launch::Shortcut(path))
    }
}


/// Where a resource is taken from.
#[derive(Clone, Copy, PartialEq, Eq, Debug, Structural)]
pub enum ResourceBase {
    /// The relative path as given (absolute paths, and the last resort).
    AsGiven,
    /// Next to the executable (an unpacked build).
    ExeDir,
    /// In the project folder (a development run).
    ProjectDir,
}

/// Where to take a resource from: an absolute path as given; otherwise
/// next to the executable if usable there, else in the project folder if
/// usable there, else as given. `exe_dir_usable` is `None` when the
/// executable's folder is unknown.
pub fn resource_base(absolute: bool, exe_dir_usable: Option<bool>, project_usable: bool) -> (r:
    ResourceBase)
    ensures
        r == if absolute {
            ResourceBase::AsGiven
        } else if exe_dir_usable == Some(true) {
            ResourceBase::ExeDir
        } else if project_usable {
            ResourceBase::ProjectDir
        } else {
            ResourceBase::AsGiven
        },
{
    if absolute {
        return ResourceBase::AsGiven;
    }
    match exe_dir_usable {
        Some(true) => {
            return ResourceBase::ExeDir;
        },
        _ => {},
    }
    if project_usable {
        ResourceBase::ProjectDir
    } else {
        ResourceBase::AsGiven
    }
}

} // verus!
