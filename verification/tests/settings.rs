use texture_downloader::app::{DownloadArgs, DownloadMode, SkyboxSize, TextureSize};
use texture_downloader::download::{plan_run, DownloadTarget};

fn all_mode() -> DownloadMode {
    DownloadMode::All { size_textures: TextureSize::_4K, size_skybox: SkyboxSize::_2K }
}

#[test]
fn size_labels() {
    assert_eq!(TextureSize::_1K.to_string(), "1K");
    assert_eq!(TextureSize::_2K.to_string(), "2K");
    assert_eq!(TextureSize::_4K.to_string(), "4K");
    assert_eq!(SkyboxSize::_2K.to_string(), "2K");
}

#[test]
fn args_keep_their_values() {
    let mode = DownloadMode::Textures { size_textures: TextureSize::_2K };
    let args = DownloadArgs::new("./textures".to_string(), mode, 64);
    assert_eq!(args.mode(), mode);
    assert_eq!(args.limit(), 64);
    assert_eq!(args.dir(), "./textures");
}

#[test]
fn target_directories_under_default_dir() {
    let args = DownloadArgs::new("./textures".to_string(), all_mode(), 64);
    assert_eq!(args.download_textures_dir(), "./textures/textures");
    assert_eq!(args.download_skybox_dir(), "./textures/skybox");
    assert_eq!(args.target_dir(DownloadTarget::Skybox), "./textures/skybox");
}

#[test]
fn target_directories_with_trailing_slash_or_empty_dir() {
    let args = DownloadArgs::new("out/".to_string(), all_mode(), 1);
    assert_eq!(args.download_textures_dir(), "out/textures");
    let args = DownloadArgs::new(String::new(), all_mode(), 1);
    assert_eq!(args.download_skybox_dir(), "skybox");
    let args = DownloadArgs::new("/".to_string(), all_mode(), 1);
    assert_eq!(args.download_textures_dir(), "/textures");
}

#[test]
fn directories_for_each_mode() {
    let all = DownloadArgs::new("d".to_string(), all_mode(), 4);
    assert_eq!(all.required_directories(), vec!["d", "d/textures", "d/skybox"]);
    let tex = DownloadArgs::new(
        "d".to_string(),
        DownloadMode::Textures { size_textures: TextureSize::_1K },
        4,
    );
    assert_eq!(tex.required_directories(), vec!["d", "d/textures"]);
    let sky = DownloadArgs::new(
        "d".to_string(),
        DownloadMode::Skybox { size_skybox: SkyboxSize::_2K },
        4,
    );
    assert_eq!(sky.required_directories(), vec!["d", "d/skybox"]);
    assert_eq!(sky.targets(), vec![DownloadTarget::Skybox]);
}

#[test]
fn run_plan_for_everything() {
    let args = DownloadArgs::new("./textures".to_string(), all_mode(), 64);
    let plan = plan_run(&args);
    assert!(!plan.report_failures);
    assert_eq!(plan.jobs.len(), 2);
    assert_eq!(plan.jobs[0].target, DownloadTarget::Textures);
    assert_eq!(plan.jobs[0].listing_url, "https://freestylized.com/all-textures/");
    assert_eq!(plan.jobs[0].button_text, "4K");
    assert_eq!(plan.jobs[0].dir, "./textures/textures");
    assert_eq!(plan.jobs[1].target, DownloadTarget::Skybox);
    assert_eq!(plan.jobs[1].listing_url, "https://freestylized.com/all-skybox/");
    assert_eq!(plan.jobs[1].button_text, "2K");
    assert_eq!(plan.jobs[1].dir, "./textures/skybox");
}

#[test]
fn button_follows_chosen_size() {
    let args = DownloadArgs::new(
        "x".to_string(),
        DownloadMode::Textures { size_textures: TextureSize::_1K },
        3,
    );
    assert_eq!(plan_run(&args).jobs[0].button_text, "1K");
    assert_eq!(args.button_text(DownloadTarget::Textures), "1K");
    assert_eq!(args.button_text(DownloadTarget::Skybox), "");
    let args = DownloadArgs::new(
        "x".to_string(),
        DownloadMode::All { size_textures: TextureSize::_2K, size_skybox: SkyboxSize::_2K },
        3,
    );
    let plan = plan_run(&args);
    assert_eq!(plan.jobs[0].button_text, "2K");
    assert_eq!(plan.jobs[1].button_text, "2K");
}

#[test]
fn run_plan_for_one_catalogue() {
    let args = DownloadArgs::new(
        "x".to_string(),
        DownloadMode::Skybox { size_skybox: SkyboxSize::_2K },
        3,
    );
    let plan = plan_run(&args);
    assert!(plan.report_failures);
    assert_eq!(plan.jobs.len(), 1);
    assert_eq!(plan.jobs[0].target, DownloadTarget::Skybox);
    assert_eq!(plan.jobs[0].dir, "x/skybox");
}

#[test]
fn target_words() {
    assert_eq!(DownloadTarget::Textures.kind(), "texture");
    assert_eq!(DownloadTarget::Skybox.kind(), "skybox");
}
