use mascot::config::has_vrma_suffix;
use mascot::platform::process_name;
use mascot::audio::downmix_i16;
use mascot::config::{
    alpha_mode, anim_key, arg_value, exe_candidates, is_anim_file, is_shortcut_extension,
    path_fallback_names, render_backend, resource_base, AlphaMode, Backend, Config, ResourceBase,
};
use mascot::platform::{cursor_pos, foreground_exe, idle_millis, image_file_name, is_editor, work_area};
use mascot::voice::{AppIndex, Launch};

fn args(v: &[&str]) -> Vec<String> {
    v.iter().map(|s| s.to_string()).collect()
}

#[test]
fn geometry_of_a_full_hd_work_area() {
    let c = Config::from_work_area((0, 0, 1920, 1040));
    assert_eq!((c.work_w, c.work_h), (1920, 1040));
    assert_eq!(c.win_h, 312);
    assert_eq!(c.win_w, 205);
    assert_eq!(c.ground_y(), 728);
    assert_eq!(c.min_x(), 0);
    assert_eq!(c.max_x(), 1715);
}

#[test]
fn geometry_of_an_offset_work_area() {
    let c = Config::from_work_area((100, 50, 1380, 770));
    assert_eq!((c.work_left, c.work_top, c.work_w, c.work_h), (100, 50, 1280, 720));
    assert_eq!(c.win_h, 216);
    assert_eq!(c.win_w, 142);
    assert_eq!(c.ground_y(), 50 + 720 - 216);
    assert_eq!(c.max_x(), 100 + 1280 - 142);
}

#[test]
fn degenerate_work_area_is_one_pixel() {
    let c = Config::from_work_area((10, 10, 5, 10));
    assert_eq!((c.work_w, c.work_h, c.win_w, c.win_h), (1, 1, 0, 0));
}

#[test]
fn option_values_from_arguments() {
    let a = args(&["--backend", "dx12", "--alpha=post"]);
    assert_eq!(arg_value("--backend", &a), Some("dx12".to_string()));
    assert_eq!(arg_value("--alpha", &a), Some("post".to_string()));
    assert_eq!(arg_value("--other", &a), None);
    assert_eq!(arg_value("--backend", &args(&["--backend"])), None);
    // The first occurrence wins, in either form.
    let a = args(&["--alpha=opaque", "--alpha", "post"]);
    assert_eq!(arg_value("--alpha", &a), Some("opaque".to_string()));
    assert_eq!(arg_value("--alpha", &args(&["--alpha="])), Some(String::new()));
    assert_eq!(arg_value("--alpha", &args(&["--alphax=1"])), None);
}

#[test]
fn backend_choices() {
    assert_eq!(render_backend(None), (Backend::Vulkan, true));
    assert_eq!(render_backend(Some("auto")), (Backend::Vulkan, true));
    assert_eq!(render_backend(Some("vulkan")), (Backend::Vulkan, true));
    assert_eq!(render_backend(Some("dx12")), (Backend::Dx12, true));
    assert_eq!(render_backend(Some("all")), (Backend::All, true));
    assert_eq!(render_backend(Some("metal")), (Backend::Vulkan, false));
}

#[test]
fn alpha_choices() {
    assert_eq!(alpha_mode(None), (AlphaMode::PreMultiplied, true));
    assert_eq!(alpha_mode(Some("auto")), (AlphaMode::Auto, true));
    assert_eq!(alpha_mode(Some("opaque")), (AlphaMode::Opaque, true));
    assert_eq!(alpha_mode(Some("pre")), (AlphaMode::PreMultiplied, true));
    assert_eq!(alpha_mode(Some("post")), (AlphaMode::PostMultiplied, true));
    assert_eq!(alpha_mode(Some("inherit")), (AlphaMode::Inherit, true));
    assert_eq!(alpha_mode(Some("PRE")), (AlphaMode::PreMultiplied, false));
}

#[test]
fn animation_files_and_keys() {
    assert_eq!(anim_key("idle.vrma"), "idle");
    assert_eq!(anim_key("walking.vrma.vrma"), "walking");
    assert_eq!(anim_key("readme.txt"), "readme.txt");
    assert_eq!(anim_key("Salute.VRMA"), "Salute.VRMA");
    assert!(is_anim_file("idle.vrma"));
    assert!(is_anim_file("Salute.VRMA"));
    assert!(!is_anim_file("vrma"));
    assert!(!is_anim_file("model.vrm"));
}

#[test]
fn shortcut_extension_any_case() {
    assert!(is_shortcut_extension("lnk"));
    assert!(is_shortcut_extension("LnK"));
    assert!(!is_shortcut_extension("exe"));
    assert!(!is_shortcut_extension("lnkx"));
}

#[test]
fn program_lookup_names() {
    assert_eq!(
        path_fallback_names(),
        vec!["zed", "code", "wt", "pwsh", "powershell", "explorer"]
    );
    assert_eq!(exe_candidates("zed"), vec!["zed.exe", "zed"]);
}

#[test]
fn shortcuts_are_indexed_by_lowercased_stem() {
    let mut idx = AppIndex::new();
    assert!(idx.add_shortcut("Telegram", "C:\\a\\Telegram.lnk".to_string()));
    assert!(!idx.add_shortcut("TELEGRAM", "C:\\b\\Telegram.lnk".to_string()));
    match idx.get("telegram") {
        Some(Launch::Shortcut(p)) => assert_eq!(p, "C:\\a\\Telegram.lnk"),
        _ => panic!("shortcut missing"),
    }
    assert_eq!(idx.len(), 1);
}

#[test]
fn resource_locations() {
    assert_eq!(resource_base(true, Some(true), true), ResourceBase::AsGiven);
    assert_eq!(resource_base(false, Some(true), true), ResourceBase::ExeDir);
    assert_eq!(resource_base(false, Some(false), true), ResourceBase::ProjectDir);
    assert_eq!(resource_base(false, None, true), ResourceBase::ProjectDir);
    assert_eq!(resource_base(false, None, false), ResourceBase::AsGiven);
}

#[test]
fn desktop_fallbacks() {
    assert_eq!(cursor_pos(Some((5, -7))), (5, -7));
    assert_eq!(cursor_pos(None), (0, 0));
    assert_eq!(work_area(None), (0, 0, 1920, 1040));
    assert_eq!(work_area(Some((0, 0, 2560, 1400))), (0, 0, 2560, 1400));
}

#[test]
fn idle_time_wraps_with_the_tick_counter() {
    assert_eq!(idle_millis(10_000, Some(4_000)), 6_000);
    assert_eq!(idle_millis(100, Some(u32::MAX - 99)), 200);
    assert_eq!(idle_millis(100, None), 0);
}

#[test]
fn foreground_process_names() {
    assert_eq!(image_file_name("C:\\Program Files\\Zed\\Zed.exe"), "Zed.exe");
    assert_eq!(image_file_name("/usr/bin/alacritty"), "alacritty");
    assert_eq!(image_file_name("plain"), "plain");
    assert_eq!(
        foreground_exe(Some("C:\\Users\\me\\AppData\\Local\\Programs\\Zed\\Zed.exe".to_string())),
        Some("zed.exe".to_string())
    );
    assert_eq!(foreground_exe(Some("C:\\dir\\".to_string())), None);
    assert_eq!(foreground_exe(None), None);
}

#[test]
fn editors_and_terminals() {
    for e in ["zed.exe", "code.exe", "windowsterminal.exe", "notepad++.exe", "cmd.exe"] {
        assert!(is_editor(e), "{e}");
    }
    assert!(!is_editor("chrome.exe"));
    assert!(!is_editor("Zed.exe"));
}

#[test]
fn downmix_averages_each_frame() {
    assert_eq!(downmix_i16(&[10, 20, -10, -21, 5], 2), vec![15, -15, 2]);
    assert_eq!(downmix_i16(&[1, 2, 3], 1), vec![1, 2, 3]);
    assert_eq!(downmix_i16(&[32767, 32767, -32768, -32768], 2), vec![32767, -32768]);
    assert_eq!(downmix_i16(&[], 3), Vec::<i16>::new());
    assert_eq!(downmix_i16(&[3, 3, 3, 1], 3), vec![3, 0]);
}

#[test]
fn lowercased_names() {
    assert!(has_vrma_suffix("idle.vrma"));
    assert!(!has_vrma_suffix("idle.VRMA"));
    assert!(!has_vrma_suffix(".vrm"));
    assert_eq!(process_name("zed.exe".to_string()), Some("zed.exe".to_string()));
    assert_eq!(process_name(String::new()), None);
}
