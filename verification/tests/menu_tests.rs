use bloksel::config::chunksys::ChunkSysConfig;
use bloksel::config::language::LanguageConfig;
use bloksel::engine::{get_stats, EngineStats, RenderStats, ThreadPoolStats};
use bloksel::rendering::texture::Texture;
use bloksel::ui::hud::HUD;
use bloksel::ui::menu::{blank, resolve_seed, world_path, MenuCommand, MenuEvent, MenuScreen, MenuState};

#[test]
fn menu_moves_between_screens() {
    let mut menu = MenuState::dummy();
    assert!(matches!(menu.current_screen, MenuScreen::Main));
    let cmd = menu.on_event(MenuEvent::LoadWorldClicked);
    assert!(matches!(cmd, MenuCommand::ScanWorlds));
    assert!(matches!(menu.current_screen, MenuScreen::LoadWorld));
    menu.on_event(MenuEvent::PlaySelectedClicked);
    assert!(matches!(menu.current_screen, MenuScreen::LoadWorld));
    menu.on_event(MenuEvent::WorldSelected("Alpha".to_string()));
    let cmd = menu.on_event(MenuEvent::DeleteClicked);
    assert!(matches!(cmd, MenuCommand::DeleteWorld(ref n) if n == "Alpha"));
}

#[test]
fn empty_world_list_gets_placeholders() {
    let mut menu = MenuState::dummy();
    menu.scan_for_worlds(vec![]);
    assert_eq!(menu.worlds_list, vec!["Test World".to_string(), "Creative Build".to_string()]);
    menu.scan_for_worlds(vec!["Mine".to_string()]);
    assert_eq!(menu.worlds_list, vec!["Mine".to_string()]);
}

#[test]
fn seeds_and_paths() {
    assert_eq!(resolve_seed("42", "any"), 42);
    assert_eq!(resolve_seed("+7", "any"), 7);
    assert_eq!(resolve_seed("abc", "name"), resolve_seed("", "name"));
    assert_eq!(world_path("Alpha"), "worlds/Alpha");
    assert!(blank("  \t"));
    assert!(!blank(" a "));
}

#[test]
fn defaults() {
    let lang = LanguageConfig::default();
    assert_eq!(lang.preferred, "en");
    assert_eq!(lang.fallback, Some("en".to_string()));
    let hud = HUD::new();
    let _ = hud;
    let t = Texture::new(16, 32);
    assert_eq!((t.width, t.height), (16, 32));
    let c = ChunkSysConfig::default();
    assert_eq!((c.chunk_size, c.max_chunks, c.load_distance, c.unload_distance), (32, 1000, 8, 12));
    let _ = EngineStats::default();
    let _ = RenderStats::default();
    let _ = ThreadPoolStats::default();
}

#[test]
fn engine_stats_sum_the_queues() {
    let stats = get_stats(5, 2, 3, 12, 6, 4, 1, 2);
    assert_eq!(
        format!("{:?}", stats),
        "EngineStats { frame_count: 5, active_chunks: 2, render_stats: RenderStats { draw_calls: 3, vertices_rendered: 12, \
         triangles_rendered: 6 }, memory_usage: 0, thread_stats: ThreadPoolStats { active_threads: 4, queued_tasks: 3 } }"
    );
}
