use unleashed_agent::images::Raster;
use unleashed_agent::request::LanguageModelToolResultContent;
use unleashed_agent::tools::computer_use::{
    encode_image, encode_screenshot_for_model, format_monitor_catalog, map_axis, needs_scaling,
    parse_key, screenshot_metadata, select_monitor, Capture, CaptureFacts, ComputerAction,
    ComputerEvent, ComputerRun, ComputerStep, ComputerUseTool, ComputerUseToolInput,
    ComputerUseToolOutput, KeyName, MonitorInfo, MouseButton, ScreenshotScale, CLICK_SENT,
    SCREENSHOT_MAX_EDGE, STALE_SCALE,
};
use unleashed_agent::tools::full_access::FULL_ACCESS_DISABLED;

fn scale() -> ScreenshotScale {
    ScreenshotScale {
        image_w: 1280,
        image_h: 720,
        capture_w: 2560,
        capture_h: 1440,
        origin_x: 1920,
        origin_y: 0,
    }
}

fn input(action: &str) -> ComputerUseToolInput {
    ComputerUseToolInput {
        action: action.to_string(),
        x: None,
        y: None,
        text: None,
        button: None,
        monitor: None,
    }
}

fn monitors() -> Vec<MonitorInfo> {
    vec![
        MonitorInfo {
            name: Some("DELL U27".to_string()),
            is_primary: false,
            x: -1920,
            y: 0,
            width: 1920,
            height: 1080,
        },
        MonitorInfo { name: None, is_primary: true, x: 0, y: 0, width: 2560, height: 1440 },
        MonitorInfo {
            name: Some("Dell Laptop".to_string()),
            is_primary: false,
            x: 2560,
            y: 0,
            width: 1920,
            height: 1200,
        },
    ]
}

fn black(width: u32, height: u32) -> Raster {
    Raster { width, height, rgba: vec![0; width as usize * height as usize * 4] }
}

#[test]
fn test_map_image_to_virtual_includes_monitor_origin() {
    let scale = ScreenshotScale {
        image_w: 1280,
        image_h: 720,
        capture_w: 2560,
        capture_h: 1440,
        origin_x: 1920,
        origin_y: 0,
    };
    assert_eq!(scale.map_image_to_virtual(0, 0), (1920, 0));
    assert_eq!(scale.map_image_to_virtual(100, 50), (2120, 100));
    assert_eq!(scale.map_image_to_virtual(1279, 719), (4479, 1439));
}

#[test]
fn test_encode_screenshot_downscales_and_uses_jpeg() {
    let encoded = encode_screenshot_for_model(black(3840, 2160), 1568, 882).unwrap();
    let (image_w, image_h) = (encoded.size.width, encoded.size.height);
    assert!(image_w <= SCREENSHOT_MAX_EDGE as i32);
    assert!(image_h <= SCREENSHOT_MAX_EDGE as i32);
    assert_eq!(encoded.mime_type, "image/jpeg");
    assert_eq!(image_w, 1568);
    assert_eq!(image_h, 882);
    assert_eq!(encoded.estimate_tokens(), 1_445);
}

#[test]
fn test_computer_use_output_deserializes_legacy_shapes() {
    let text = ComputerUseToolOutput::from_json("\"Mouse moved\"").unwrap();
    assert!(matches!(text, ComputerUseToolOutput::Text(_)));

    let image = ComputerUseToolOutput::from_json(
        "{\"Image\": { \"source\": \"AAAA\", \"size\": { \"width\": 1, \"height\": 1 } } }",
    )
    .unwrap();
    assert!(matches!(image, ComputerUseToolOutput::Parts(parts) if parts.len() == 1));

    let parts =
        ComputerUseToolOutput::from_json("[\"meta\", { \"Image\": { \"source\": \"BBBB\" } }]")
            .unwrap();
    assert!(matches!(parts, ComputerUseToolOutput::Parts(parts) if parts.len() == 2));
}

#[test]
fn an_output_of_another_shape_is_refused() {
    assert_eq!(
        ComputerUseToolOutput::from_json("17").unwrap_err(),
        "unsupported computer_use tool output shape"
    );
    let parts = ComputerUseToolOutput::Text("done".to_string()).into_parts();
    assert_eq!(parts.len(), 1);
    assert!(matches!(&parts[0], LanguageModelToolResultContent::Text(text) if text == "done"));
}

#[test]
fn a_small_image_is_encoded_as_it_is() {
    assert!(!needs_scaling(1568, 10));
    assert!(needs_scaling(1569, 10));
    let encoded = encode_image(&black(2, 2)).unwrap();
    assert_eq!((encoded.size.width, encoded.size.height), (2, 2));
    assert!(encoded.source.starts_with("/9j/"));
    let same = encode_screenshot_for_model(black(2, 2), 1, 1).unwrap();
    assert_eq!(same.source, encoded.source);
    let same = encode_screenshot_for_model(black(2, 2), 0, 0).unwrap();
    assert_eq!(same.source, encoded.source);
}

#[test]
fn positions_stay_on_the_axis() {
    assert_eq!(map_axis(0, 100, 1000), 0);
    assert_eq!(map_axis(99, 100, 1000), 999);
    assert_eq!(map_axis(500, 100, 1000), 999);
    assert_eq!(map_axis(-5, 100, 1000), 0);
    assert_eq!(map_axis(3, 1, 1000), 3);
    assert_eq!(map_axis(3, 100, 1), 0);
}

#[test]
fn the_mouse_needs_a_fresh_image() {
    let mut tool = ComputerUseTool::new();
    let mut move_mouse = input("Mouse_Move");
    assert_eq!(tool.plan(&move_mouse).unwrap_err(), "mouse_move requires x");
    move_mouse.x = Some(100);
    assert_eq!(tool.plan(&move_mouse).unwrap_err(), "mouse_move requires y");
    move_mouse.y = Some(50);
    assert_eq!(tool.plan(&move_mouse).unwrap_err(), STALE_SCALE);
    tool.captured(scale());
    let action = tool.plan(&move_mouse).unwrap();
    assert!(matches!(
        action,
        ComputerAction::MoveMouse { x: 100, y: 50, screen_x: 2120, screen_y: 100 }
    ));
    let mut click = input("click");
    click.button = Some("RIGHT".to_string());
    let action = tool.plan(&click).unwrap();
    assert!(matches!(
        &action,
        ComputerAction::Click { move_to: None, button: Ok(MouseButton::Right) }
    ));
    let (run, step) = ComputerRun::start(click, true);
    assert!(matches!(step, ComputerStep::Ask { title } if title == "Computer use: click"));
    let (run, step) = run.step(&mut tool, ComputerEvent::Answered(Ok(())));
    assert!(matches!(step, ComputerStep::Click(MouseButton::Right)));
    let (run, step) = run.step(&mut tool, ComputerEvent::Clicked(Ok(())));
    assert!(matches!(run, ComputerRun::Done));
    assert!(matches!(
        step,
        ComputerStep::Finish(Ok(ComputerUseToolOutput::Text(text))) if text == CLICK_SENT
    ));
    assert_eq!(tool.plan(&move_mouse).unwrap_err(), STALE_SCALE);
}

#[test]
fn the_computer_is_used_step_by_step() {
    let mut tool = ComputerUseTool::new();
    let (_, step) = ComputerRun::start(input("type"), false);
    assert!(matches!(
        step,
        ComputerStep::Finish(Err(ComputerUseToolOutput::Text(text))) if text == FULL_ACCESS_DISABLED
    ));
    let (run, _) = ComputerRun::start(input("screenshot"), true);
    let (run, step) = run.step(&mut tool, ComputerEvent::Answered(Err("no".to_string())));
    assert!(matches!(run, ComputerRun::Done));
    assert!(matches!(
        step,
        ComputerStep::Finish(Err(ComputerUseToolOutput::Text(text))) if text == "no"
    ));

    let (run, _) = ComputerRun::start(input("screenshot"), true);
    let (run, step) = run.step(&mut tool, ComputerEvent::Answered(Ok(())));
    assert!(matches!(step, ComputerStep::Capture { monitor: None }));
    let capture = Capture {
        image: encode_image(&black(2, 2)).unwrap(),
        metadata: "screenshot".to_string(),
        scale: scale(),
    };
    let (_, step) = run.step(&mut tool, ComputerEvent::Captured(Ok(capture)));
    assert!(matches!(
        step,
        ComputerStep::Finish(Ok(ComputerUseToolOutput::Parts(parts))) if parts.len() == 2
    ));
    assert_eq!(tool.last_scale, Some(scale()));

    let mut bad_click = input("click");
    bad_click.x = Some(100);
    bad_click.y = Some(50);
    bad_click.button = Some("fourth".to_string());
    let (run, _) = ComputerRun::start(bad_click, true);
    let (run, step) = run.step(&mut tool, ComputerEvent::Answered(Ok(())));
    assert!(matches!(step, ComputerStep::MovePointer { x: 2120, y: 100 }));
    let (run, step) = run.step(&mut tool, ComputerEvent::Typed(Ok(())));
    assert!(matches!(step, ComputerStep::Wait));
    let (_, step) = run.step(&mut tool, ComputerEvent::Moved(Ok(())));
    assert!(matches!(step, ComputerStep::Finish(Err(_))));
    assert_eq!(tool.last_scale, Some(scale()));

    let mut mouse_move = input("mouse_move");
    mouse_move.x = Some(100);
    mouse_move.y = Some(50);
    let (run, _) = ComputerRun::start(mouse_move, true);
    let (run, _) = run.step(&mut tool, ComputerEvent::Answered(Ok(())));
    let (_, step) = run.step(&mut tool, ComputerEvent::Moved(Ok(())));
    assert!(matches!(
        step,
        ComputerStep::Finish(Ok(ComputerUseToolOutput::Text(text)))
            if text == "Mouse moved to image=(100, 50) screen=(2120, 100)."
    ));

    let mut typing = input("type");
    typing.text = Some("hé".to_string());
    let (run, _) = ComputerRun::start(typing, true);
    let (run, step) = run.step(&mut tool, ComputerEvent::Answered(Ok(())));
    assert!(matches!(step, ComputerStep::Type { text } if text == "hé"));
    let (_, step) = run.step(&mut tool, ComputerEvent::Typed(Ok(())));
    assert!(matches!(
        step,
        ComputerStep::Finish(Ok(ComputerUseToolOutput::Text(text)))
            if text.starts_with("Typed 2 characters.")
    ));
    assert_eq!(tool.last_scale, None);
}

#[test]
fn text_and_keys_are_read() {
    let tool = ComputerUseTool::new();
    assert_eq!(tool.plan(&input("type")).unwrap_err(), "type requires text");
    assert_eq!(tool.plan(&input("key")).unwrap_err(), "key requires a key name in text");
    assert_eq!(
        tool.plan(&input("scroll")).unwrap_err(),
        "Unsupported action. Use screenshot, mouse_move, click, type, or key."
    );
    assert!(matches!(parse_key("Enter"), Ok(KeyName::Return)));
    assert!(matches!(parse_key("a"), Ok(KeyName::Unicode('a'))));
    assert_eq!(parse_key("F13").unwrap_err(), "Unsupported key name.");
}

#[test]
fn monitors_are_listed_and_chosen() {
    let all = monitors();
    assert_eq!(
        format_monitor_catalog(&all),
        "- [0] DELL U27 origin=(-1920,0) size=1920x1080\n\
         - [1] unknown (primary) origin=(0,0) size=2560x1440\n\
         - [2] Dell Laptop origin=(2560,0) size=1920x1200"
    );
    assert_eq!(select_monitor(&all, None), Ok(1));
    assert_eq!(select_monitor(&all, Some(" PRIMARY ")), Ok(1));
    assert_eq!(select_monitor(&all, Some("2")), Ok(2));
    assert_eq!(select_monitor(&all, Some("u27")), Ok(0));
    assert_eq!(
        select_monitor(&all, Some("7")),
        Err("Monitor index 7 is out of range (0..2).".to_string())
    );
    assert!(select_monitor(&all, Some("dell"))
        .unwrap_err()
        .starts_with("Multiple monitors match \"dell\". Use an index instead."));
    assert!(select_monitor(&all, Some("lg"))
        .unwrap_err()
        .starts_with("No monitor name contains \"lg\". Available:\n- [0]"));
    assert_eq!(select_monitor(&Vec::new(), None), Err("No monitors were found.".to_string()));
}

#[test]
fn an_image_is_described() {
    let facts = CaptureFacts {
        name: "DELL U27".to_string(),
        scale: scale(),
        scale_x: "2.000".to_string(),
        scale_y: "2.000".to_string(),
    };
    let text = screenshot_metadata(&facts, &monitors());
    assert!(text.starts_with(
        "screenshot: monitor=\"DELL U27\" origin=(1920,0) image=1280x720 capture=2560x1440 scale_x=2.000 scale_y=2.000\n"
    ));
    assert!(text.ends_with("size=1920x1200"));
}
