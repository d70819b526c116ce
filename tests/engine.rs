use chibi_manager::bridge::{AppMsg, TrayState, UiAction};
use chibi_manager::engine::{Engine, SaveError, SaveOutcome, SpawnError};
use chibi_manager::instance::{to_margin, DragMode, GLOBAL_PARK_X, HOVER_PARK_X};
use chibi_manager::pool::{RECYCLE_PARK_X, RecyclePool, Surface, strip_surface};
use chibi_manager::preset::{clone_preset, default_delay, Preset, PresetStore};

fn preset(id: &str, x: i32, y: i32, smart_hide: bool, delay: u64) -> Preset {
    Preset {
        id: id.to_string(),
        name: format!("preset {}", id),
        path: "/img/chibi.png".to_string(),
        width: 200,
        x,
        y,
        smart_hide,
        always_on_top: true,
        hide_delay: delay,
    }
}

fn instance_of(e: &Engine, h: u64) -> &chibi_manager::instance::OverlayInstance {
    &e.registry.entries.iter().find(|en| en.handle == h).unwrap().instance
}

#[test]
fn hover_parks_then_timer_restores_spawn_position() {
    let mut e = Engine::new(vec![preset("p", 100, 100, true, 3)]);
    let p = clone_preset(&e.presets.presets[0]);
    let h = e.spawn(p, true).unwrap();
    assert_eq!(instance_of(&e, h).surface.margin_left, 100);
    assert_eq!(e.hover_enter(h), Some(3));
    assert_eq!(instance_of(&e, h).surface.margin_left, HOVER_PARK_X);
    assert_eq!(instance_of(&e, h).x, 100);
    assert!(e.hide_timer_fired(h));
    let inst = instance_of(&e, h);
    assert_eq!((inst.surface.margin_left, inst.surface.margin_top), (100, 100));
    assert_eq!((inst.x, inst.y), (100, 100));
    assert!(!inst.parked);
}

#[test]
fn delete_preset_closes_all_its_overlays() {
    let mut e = Engine::new(vec![preset("a", 10, 20, false, 3), preset("b", 0, 0, false, 3)]);
    let h1 = e.spawn(preset("a", 10, 20, false, 3), true).unwrap();
    let other = e.spawn(preset("b", 0, 0, false, 3), true).unwrap();
    let h2 = e.spawn(preset("a", 10, 20, false, 3), true).unwrap();
    assert_eq!(e.registry.find_by_preset(&"a".to_string()), vec![h1, h2]);
    let closed = e.delete_preset(&"a".to_string());
    assert_eq!(closed, vec![h1, h2]);
    assert_eq!(e.registry.entries.len(), 1);
    assert_eq!(e.registry.entries[0].handle, other);
    assert_eq!(e.pool.surfaces.len(), 2);
    for s in e.pool.surfaces.iter() {
        assert!(s.image.is_none());
        assert_eq!(s.margin_left, RECYCLE_PARK_X);
    }
    assert_eq!(e.presets.presets.len(), 1);
    assert_eq!(e.presets.presets[0].id, "b");
    assert_eq!(e.presets.position(&"a".to_string()), None);
}

#[test]
fn drag_ends_at_origin_plus_pointer_offset() {
    let mut e = Engine::new(vec![]);
    let h = e.spawn(preset("p", 100, 100, false, 3), true).unwrap();
    assert!(e.press(h, 10, 10));
    assert_eq!(instance_of(&e, h).drag, DragMode::Idle);
    assert!(e.set_move_mode(h, true));
    assert!(e.press(h, 10, 10));
    assert!(e.motion(h, 15, 12));
    assert!(e.motion(h, 500, -300));
    assert!(e.motion(h, 40, 30));
    assert!(e.release(h));
    let inst = instance_of(&e, h);
    assert_eq!((inst.x, inst.y), (130, 120));
    assert_eq!((inst.surface.margin_left, inst.surface.margin_top), (130, 120));
    assert_eq!(inst.drag, DragMode::Armed);
}

#[test]
fn drag_with_one_motion_matches_many_motions() {
    let mut e = Engine::new(vec![]);
    let a = e.spawn(preset("p", 5, 7, false, 3), true).unwrap();
    let b = e.spawn(preset("p", 5, 7, false, 3), true).unwrap();
    e.set_move_mode(a, true);
    e.set_move_mode(b, true);
    e.press(a, 0, 0);
    e.press(b, 0, 0);
    for k in 1..50 {
        e.motion(a, k, -k);
    }
    e.motion(a, 49, -49);
    e.motion(b, 49, -49);
    e.release(a);
    e.release(b);
    assert_eq!(instance_of(&e, a).x, instance_of(&e, b).x);
    assert_eq!(instance_of(&e, a).y, 7 - 49);
}

#[test]
fn motion_without_drag_or_move_mode_is_ignored() {
    let mut e = Engine::new(vec![]);
    let h = e.spawn(preset("p", 1, 2, false, 3), true).unwrap();
    e.motion(h, 50, 50);
    assert_eq!(instance_of(&e, h).x, 1);
    e.set_move_mode(h, true);
    e.press(h, 0, 0);
    e.set_move_mode(h, false);
    e.motion(h, 50, 50);
    assert_eq!(instance_of(&e, h).x, 1);
    assert_eq!(instance_of(&e, h).drag, DragMode::Idle);
}

#[test]
fn drag_target_out_of_range_keeps_position() {
    let mut e = Engine::new(vec![]);
    let h = e.spawn(preset("p", 10, 10, false, 3), true).unwrap();
    e.set_move_mode(h, true);
    e.press(h, i64::MIN, 0);
    e.motion(h, i64::MAX, 5);
    assert_eq!(instance_of(&e, h).x, 10);
    assert_eq!(instance_of(&e, h).y, 10);
}

#[test]
fn repeated_hover_schedules_one_timer() {
    let mut e = Engine::new(vec![]);
    let h = e.spawn(preset("p", 100, 100, true, 5), true).unwrap();
    assert_eq!(e.hover_enter(h), Some(5));
    assert_eq!(e.hover_enter(h), None);
    assert_eq!(e.hover_enter(h), None);
    assert!(instance_of(&e, h).hide_pending);
    assert_eq!(instance_of(&e, h).surface.margin_left, HOVER_PARK_X);
}

#[test]
fn hover_ignored_without_smart_hide_or_in_move_mode() {
    let mut e = Engine::new(vec![]);
    let plain = e.spawn(preset("p", 100, 100, false, 3), true).unwrap();
    let moving = e.spawn(preset("q", 100, 100, true, 3), true).unwrap();
    assert_eq!(e.hover_enter(plain), None);
    e.set_move_mode(moving, true);
    assert_eq!(e.hover_enter(moving), None);
    assert_eq!(instance_of(&e, moving).surface.margin_left, 100);
}

#[test]
fn global_hide_overrides_pending_hover_timer() {
    let mut e = Engine::new(vec![]);
    let h = e.spawn(preset("p", 300, 40, true, 3), true).unwrap();
    assert_eq!(e.hover_enter(h), Some(3));
    e.toggle_hide_all();
    assert!(e.global_hide);
    assert_eq!(instance_of(&e, h).surface.margin_left, GLOBAL_PARK_X);
    e.hide_timer_fired(h);
    assert_eq!(instance_of(&e, h).surface.margin_left, GLOBAL_PARK_X);
    e.toggle_hide_all();
    assert_eq!(instance_of(&e, h).surface.margin_left, 300);
    assert_eq!(instance_of(&e, h).x, 300);
}

#[test]
fn global_show_then_stale_timer_keeps_logical_position() {
    let mut e = Engine::new(vec![]);
    let h = e.spawn(preset("p", 300, 40, true, 3), true).unwrap();
    e.hover_enter(h);
    e.toggle_hide_all();
    e.toggle_hide_all();
    assert_eq!(instance_of(&e, h).surface.margin_left, 300);
    assert_eq!(e.hover_enter(h), None);
    e.hide_timer_fired(h);
    assert_eq!(instance_of(&e, h).surface.margin_left, 300);
    assert_eq!(e.hover_enter(h), Some(3));
}

#[test]
fn spawn_while_hidden_is_parked() {
    let mut e = Engine::new(vec![]);
    e.toggle_hide_all();
    let h = e.spawn(preset("p", 300, 40, true, 3), true).unwrap();
    assert_eq!(instance_of(&e, h).surface.margin_left, GLOBAL_PARK_X);
    assert_eq!(instance_of(&e, h).surface.margin_top, 40);
}

#[test]
fn save_binds_unsaved_overlay_once() {
    let mut e = Engine::new(vec![]);
    let h = e
        .spawn_new(Some("/img/a.png".to_string()), 150, 20, 30, true, false)
        .unwrap();
    assert_eq!(e.registry.entries[0].preset_id, None);
    assert_eq!(e.save(h), SaveOutcome::NeedsName);
    assert_eq!(e.save_as_new_with_id(h, "Mine".to_string(), "id-1".to_string()), Ok(()));
    assert_eq!(e.registry.entries[0].preset_id, Some("id-1".to_string()));
    assert_eq!(
        e.save_as_new_with_id(h, "Again".to_string(), "id-2".to_string()),
        Err(SaveError::AlreadySaved)
    );
    e.set_move_mode(h, true);
    e.press(h, 0, 0);
    e.motion(h, 5, 6);
    e.release(h);
    e.set_hide_delay(h, 9);
    assert_eq!(e.save(h), SaveOutcome::Updated);
    assert_eq!(e.presets.presets.len(), 1);
    let p = &e.presets.presets[0];
    assert_eq!(p.id, "id-1");
    assert_eq!(p.name, "Mine");
    assert_eq!((p.x, p.y, p.hide_delay, p.width), (25, 36, 9, 150));
    assert_eq!(e.registry.entries[0].preset_id, Some("id-1".to_string()));
}

#[test]
fn save_as_new_errors() {
    let mut e = Engine::new(vec![preset("taken", 0, 0, false, 3)]);
    let h = e.spawn_new(Some("/img/a.png".to_string()), 100, 0, 0, false, false).unwrap();
    assert_eq!(
        e.save_as_new_with_id(h + 7, "x".to_string(), "n".to_string()),
        Err(SaveError::Stale)
    );
    assert_eq!(
        e.save_as_new_with_id(h, String::new(), "n".to_string()),
        Err(SaveError::EmptyName)
    );
    assert_eq!(
        e.save_as_new_with_id(h, "x".to_string(), "taken".to_string()),
        Err(SaveError::DuplicateId)
    );
    assert_eq!(e.presets.presets.len(), 1);
    assert_eq!(e.registry.entries[0].preset_id, None);
    assert_eq!(e.save(h + 7), SaveOutcome::Stale);
}

#[test]
fn save_as_new_uses_fresh_random_id() {
    let mut e = Engine::new(vec![]);
    let h = e.spawn_new(Some("/img/a.png".to_string()), 100, 0, 0, false, false).unwrap();
    let id = e.save_as_new(h, "Named".to_string()).unwrap();
    assert_eq!(id.len(), 36);
    assert_eq!(id.matches('-').count(), 4);
    assert_eq!(e.presets.presets[0].id, id);
    assert_eq!(e.registry.entries[0].preset_id, Some(id.clone()));
    assert_eq!(e.save_as_new(h, "Other".to_string()), Err(SaveError::AlreadySaved));
    let h2 = e.spawn_new(Some("/img/b.png".to_string()), 100, 0, 0, false, false).unwrap();
    let id2 = e.save_as_new(h2, "Second".to_string()).unwrap();
    assert_ne!(id, id2);
}

#[test]
fn save_of_deleted_preset_reports_not_stored() {
    let mut e = Engine::new(vec![]);
    let h = e.spawn(preset("gone", 0, 0, false, 3), true).unwrap();
    assert_eq!(e.save(h), SaveOutcome::NotStored);
    assert_eq!(e.presets.presets.len(), 0);
}

#[test]
fn spawn_without_image_is_rejected() {
    let mut e = Engine::new(vec![]);
    assert_eq!(e.spawn_new(None, 100, 0, 0, false, false), Err(SpawnError::NoImage));
    assert_eq!(e.registry.entries.len(), 0);
    assert_eq!(e.next_handle, 0);
}

#[test]
fn spawn_with_handles_exhausted_is_rejected() {
    let mut e = Engine::new(vec![]);
    e.next_handle = u64::MAX;
    assert_eq!(e.spawn(preset("p", 0, 0, false, 3), true), Err(SpawnError::Exhausted));
    assert_eq!(e.registry.entries.len(), 0);
}

#[test]
fn close_recycles_surface_and_spawn_reuses_it() {
    let mut e = Engine::new(vec![]);
    let h = e.spawn(preset("p", 0, 0, false, 3), true).unwrap();
    let sid = instance_of(&e, h).surface.id;
    assert!(e.close(h));
    assert!(!e.close(h));
    assert_eq!(e.registry.entries.len(), 0);
    assert_eq!(e.pool.surfaces.len(), 1);
    let h2 = e.spawn(preset("q", 7, 8, false, 3), false).unwrap();
    assert_ne!(h, h2);
    let inst = instance_of(&e, h2);
    assert_eq!(inst.surface.id, sid);
    assert_eq!(inst.surface.image, Some("/img/chibi.png".to_string()));
    assert_eq!((inst.surface.margin_left, inst.surface.margin_top), (7, 8));
    assert!(inst.surface.interactive);
    assert_eq!(e.pool.surfaces.len(), 0);
    assert_eq!(e.registry.entries[0].preset_id, None);
}

#[test]
fn stale_handle_events_are_no_ops() {
    let mut e = Engine::new(vec![]);
    assert!(!e.press(3, 0, 0));
    assert!(!e.motion(3, 0, 0));
    assert!(!e.release(3));
    assert!(!e.set_move_mode(3, true));
    assert!(!e.hide_timer_fired(3));
    assert!(!e.set_hide_delay(3, 4));
    assert_eq!(e.hover_enter(3), None);
}

#[test]
fn retire_then_acquire_returns_blank_surface() {
    let mut pool = RecyclePool::new();
    let used = Surface {
        id: 42,
        image: Some("/img/x.png".to_string()),
        size: 300,
        margin_left: 12,
        margin_top: 34,
        on_top: true,
        interactive: true,
    };
    pool.retire(used);
    assert_eq!(pool.len(), 1);
    let s = pool.acquire().unwrap();
    assert_eq!(s.id, 42);
    assert_eq!(s.image, None);
    assert_eq!(s.size, 0);
    assert_eq!((s.margin_left, s.margin_top), (RECYCLE_PARK_X, 0));
    assert!(!s.on_top && !s.interactive);
    assert!(pool.acquire().is_none());
}

#[test]
fn pool_hands_out_most_recently_retired_first() {
    let mut pool = RecyclePool::new();
    for id in [1u64, 2, 3] {
        pool.retire(strip_surface(Surface {
            id,
            image: None,
            size: 1,
            margin_left: 0,
            margin_top: 0,
            on_top: false,
            interactive: false,
        }));
    }
    assert_eq!(pool.acquire().unwrap().id, 3);
    assert_eq!(pool.acquire().unwrap().id, 2);
    assert_eq!(pool.acquire().unwrap().id, 1);
}

#[test]
fn dispatch_keeps_message_order() {
    let mut e = Engine::new(vec![]);
    let msgs = vec![
        AppMsg::RefreshPresets,
        AppMsg::ToggleHideAll,
        AppMsg::ToggleManager,
        AppMsg::ToggleHideAll,
        AppMsg::ToggleHideAll,
        AppMsg::Quit,
    ];
    let actions = e.dispatch(&msgs);
    assert_eq!(
        actions,
        vec![UiAction::RefreshPresetList, UiAction::PresentManager, UiAction::Quit]
    );
    assert!(e.global_hide);
    assert_eq!(e.dispatch(&vec![]), vec![]);
}

#[test]
fn tray_hide_item_flips_checkmark() {
    let mut t = TrayState::new();
    assert!(!t.is_hidden);
    assert_eq!(t.activate_hide_all(), AppMsg::ToggleHideAll);
    assert!(t.is_hidden);
    assert_eq!(t.activate_hide_all(), AppMsg::ToggleHideAll);
    assert!(!t.is_hidden);
    assert_eq!(t.activate_open_manager(), AppMsg::ToggleManager);
    assert_eq!(t.activate_quit(), AppMsg::Quit);
}

#[test]
fn store_keeps_first_of_each_id() {
    let s = PresetStore::from_list(vec![
        preset("a", 1, 1, false, 3),
        preset("b", 2, 2, false, 3),
        preset("a", 9, 9, false, 3),
    ]);
    assert_eq!(s.presets.len(), 2);
    assert_eq!(s.presets[0].x, 1);
    assert_eq!(s.presets[1].id, "b");
}

#[test]
fn store_add_update_remove() {
    let mut s = PresetStore::new();
    assert!(s.add(preset("a", 1, 1, false, 3)));
    assert!(!s.add(preset("a", 5, 5, false, 3)));
    assert!(s.update(preset("a", 7, 7, false, 3)));
    assert!(!s.update(preset("z", 7, 7, false, 3)));
    assert_eq!(s.presets[0].x, 7);
    assert!(s.remove(&"a".to_string()));
    assert!(!s.remove(&"a".to_string()));
    assert_eq!(s.presets.len(), 0);
}

#[test]
fn default_delay_is_three_seconds() {
    assert_eq!(default_delay(), 3);
}

#[test]
fn margins_saturate_to_i32() {
    assert_eq!(to_margin(5), 5);
    assert_eq!(to_margin(-5), -5);
    assert_eq!(to_margin(i64::MAX), i32::MAX);
    assert_eq!(to_margin(i64::MIN), i32::MIN);
}
