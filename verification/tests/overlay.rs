use flgit::config::{OverlayPlacement, SavedWindowGeometry};
use flgit::metadata::read_project_name;
use flgit::overlay::{
    anchor_geometry, collapse_plan, collapsed_fallback, detect_fl_window, expand_origin,
    CollapsePlan, WindowCandidate, WindowRect,
};

fn window(visible: bool, title: Option<&str>, rect: Option<WindowRect>) -> WindowCandidate {
    WindowCandidate { visible, title: title.map(|t| t.to_string()), rect }
}

#[test]
fn finds_first_visible_fl_studio_window() {
    let rect = WindowRect { left: 10, top: 20, right: 1210, bottom: 820 };
    let windows = vec![
        window(false, Some("FL Studio 21"), Some(rect)),
        window(true, Some("Notepad"), Some(rect)),
        window(true, None, Some(rect)),
        window(true, Some("song - fl STUDIO 21"), None),
        window(true, Some("beat.flp - FL Studio 21"), Some(rect)),
    ];
    let info = detect_fl_window(&windows).unwrap();
    assert!(info.found);
    assert_eq!(info.title.as_deref(), Some("beat.flp - FL Studio 21"));
    assert_eq!((info.x, info.y, info.width, info.height), (10, 20, 1200, 800));
    let none = detect_fl_window(&vec![window(true, Some("Notepad"), Some(rect))]).unwrap();
    assert!(!none.found);
    assert_eq!((none.x, none.y, none.width, none.height), (0, 0, 0, 0));
}

#[test]
fn docking_geometry() {
    let rect = WindowRect { left: 100, top: 50, right: 1100, bottom: 450 };
    let fl = detect_fl_window(&vec![window(true, Some("FL Studio"), Some(rect))]).unwrap();
    let f = anchor_geometry(&fl, OverlayPlacement::Left).unwrap();
    assert_eq!((f.x, f.y, f.width, f.height), (100, 50, 380, 520));
    assert_eq!(anchor_geometry(&fl, OverlayPlacement::Right).unwrap().x, 720);
    assert_eq!(anchor_geometry(&fl, OverlayPlacement::Floating).unwrap().x, 696);
    assert_eq!(collapsed_fallback(&fl), Some((1008, 98)));
    let missing = detect_fl_window(&vec![]).unwrap();
    assert_eq!(collapsed_fallback(&missing), Some((1220, 72)));
}

#[test]
fn expanding_and_collapsing_geometry() {
    let saved = SavedWindowGeometry { x: 5, y: 6, width: 700, height: 500 };
    assert_eq!(expand_origin(saved, Some((1000, 100))), Some((386, 84)));
    assert_eq!(expand_origin(saved, None), Some((5, 6)));
    let plan = collapse_plan(Some((300, 200)), Some((700, 500))).unwrap();
    assert_eq!(
        plan,
        CollapsePlan::Remember {
            saved: SavedWindowGeometry { x: 300, y: 200, width: 700, height: 500 },
            launcher_x: 914,
            launcher_y: 216,
        }
    );
    assert_eq!(collapse_plan(Some((300, 200)), Some((74, 500))), Some(CollapsePlan::Forget));
    assert_eq!(collapse_plan(None, Some((700, 500))), Some(CollapsePlan::Forget));
}

#[test]
fn geometry_that_overflows_i32_is_refused() {
    let huge = WindowRect { left: i32::MIN, top: 0, right: i32::MAX, bottom: 10 };
    assert!(detect_fl_window(&vec![window(true, Some("FL Studio"), Some(huge))]).is_none());
    let rect = WindowRect { left: i32::MIN, top: i32::MAX - 10, right: i32::MIN + 100, bottom: i32::MAX };
    let fl = detect_fl_window(&vec![window(true, Some("FL Studio"), Some(rect))]).unwrap();
    assert!(anchor_geometry(&fl, OverlayPlacement::Right).is_none());
    assert_eq!(anchor_geometry(&fl, OverlayPlacement::Left).unwrap().x, i32::MIN);
    assert!(collapsed_fallback(&fl).is_none());
    let saved = SavedWindowGeometry { x: 0, y: 0, width: 700, height: 500 };
    assert!(expand_origin(saved, Some((0, i32::MIN))).is_none());
    assert!(collapse_plan(Some((i32::MAX, 0)), Some((700, 500))).is_none());
}

#[test]
fn reads_project_name_from_metadata_json() {
    let text = "{\n  \"name\": \"Track One\",\n  \"formatVersion\": 1\n}".to_string();
    assert_eq!(read_project_name(&Some(text)), Some("Track One".to_string()));
    assert_eq!(read_project_name(&Some("{\"name\": 3}".to_string())), None);
    assert_eq!(read_project_name(&Some("not json".to_string())), None);
    assert_eq!(read_project_name(&None), None);
}
