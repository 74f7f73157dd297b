use mesh_viz::animation::{
    compare_frames, detect_step1_completion, frame_number, load_all_time_series_data,
    trigger_first_frame_import, FrameOrder, TimeSeriesAsset,
};

fn paths(n: usize) -> Vec<String> {
    (0..n).map(|i| format!("frame_{}.vtu", i)).collect()
}

/// An asset whose series of `n` files has been fully read.
fn loaded(n: usize) -> TimeSeriesAsset<Vec<f32>> {
    let mut asset: TimeSeriesAsset<Vec<f32>> = TimeSeriesAsset::default();
    asset.start_loading(paths(n));
    let first = trigger_first_frame_import(&mut asset);
    assert!(first.is_some());
    assert!(detect_step1_completion(&mut asset, true, Some(&vec![0, 1, 2])));
    let data: Vec<Option<Vec<f32>>> = (0..n).map(|i| Some(vec![i as f32])).collect();
    assert_eq!(load_all_time_series_data(&mut asset, data), n);
    asset
}

#[test]
fn default_asset_is_empty_and_looping() {
    let asset: TimeSeriesAsset<Vec<f32>> = TimeSeriesAsset::default();
    assert!(asset.pending_first_file.is_none());
    assert!(!asset.is_step1_ready && !asset.is_step1_complete && !asset.is_step2_complete);
    assert!(asset.all_file_paths.is_empty() && asset.time_steps.is_empty());
    assert_eq!(asset.current_time_step, 0);
    assert!(!asset.is_playing && !asset.is_loaded && !asset.colors_need_update);
    assert!(asset.loop_animation);
    assert_eq!(asset.get_total_time_steps(), 0);
    assert!(asset.get_current_time_step_data().is_none());
}

#[test]
fn start_loading_queues_the_first_file() {
    let mut asset: TimeSeriesAsset<Vec<f32>> = TimeSeriesAsset::default();
    asset.start_loading(paths(3));
    assert_eq!(asset.pending_first_file.as_deref(), Some("frame_0.vtu"));
    assert!(asset.is_step1_ready);
    assert_eq!(asset.all_file_paths, paths(3));
}

#[test]
fn start_loading_nothing_queues_nothing() {
    let mut asset: TimeSeriesAsset<Vec<f32>> = TimeSeriesAsset::default();
    asset.start_loading(Vec::new());
    assert!(asset.pending_first_file.is_none());
    assert!(!asset.is_step1_ready);
}

#[test]
fn start_loading_resets_a_previous_series() {
    let mut asset = loaded(3);
    asset.next_time_step();
    asset.play();
    asset.start_loading(paths(2));
    assert!(asset.time_steps.is_empty());
    assert_eq!(asset.current_time_step, 0);
    assert!(!asset.is_playing && !asset.is_step2_complete && !asset.is_step1_complete);
    assert!(asset.indices.is_empty());
}

#[test]
fn first_frame_import_is_handed_out_once() {
    let mut asset: TimeSeriesAsset<Vec<f32>> = TimeSeriesAsset::default();
    asset.start_loading(paths(2));
    assert_eq!(trigger_first_frame_import(&mut asset), Some("frame_0.vtu".to_string()));
    assert!(!asset.is_step1_ready);
    assert_eq!(trigger_first_frame_import(&mut asset), None);
}

#[test]
fn step1_completes_only_with_model_and_geometry() {
    let mut asset: TimeSeriesAsset<Vec<f32>> = TimeSeriesAsset::default();
    asset.start_loading(paths(2));
    assert!(!detect_step1_completion(&mut asset, false, Some(&vec![0, 1, 2])));
    assert!(!detect_step1_completion(&mut asset, true, None));
    assert!(!asset.is_step1_complete);
    assert!(detect_step1_completion(&mut asset, true, Some(&vec![4, 5, 6])));
    assert!(asset.is_step1_complete);
    assert_eq!(asset.indices, vec![4, 5, 6]);
    assert!(!detect_step1_completion(&mut asset, true, Some(&vec![7, 8, 9])));
    assert_eq!(asset.indices, vec![4, 5, 6]);
}

#[test]
fn frames_that_cannot_be_read_are_skipped() {
    let mut asset: TimeSeriesAsset<Vec<f32>> = TimeSeriesAsset::default();
    asset.start_loading(paths(3));
    trigger_first_frame_import(&mut asset);
    detect_step1_completion(&mut asset, true, Some(&vec![0, 1, 2]));
    assert!(asset.awaiting_time_series_data());
    let count = load_all_time_series_data(&mut asset, vec![Some(vec![1.0]), None, Some(vec![3.0])]);
    assert_eq!(count, 2);
    assert_eq!(asset.time_steps.len(), 2);
    assert_eq!(asset.time_steps[0].time_step, 0);
    assert_eq!(asset.time_steps[0].file_path, "frame_0.vtu");
    assert_eq!(asset.time_steps[0].scalars, vec![1.0]);
    assert_eq!(asset.time_steps[1].time_step, 2);
    assert_eq!(asset.time_steps[1].file_path, "frame_2.vtu");
    assert_eq!(asset.time_steps[1].scalars, vec![3.0]);
    assert!(asset.is_step2_complete && asset.is_loaded);
    assert!(!asset.awaiting_time_series_data());
}

#[test]
fn frames_are_not_read_before_the_static_model() {
    let mut asset: TimeSeriesAsset<Vec<f32>> = TimeSeriesAsset::default();
    asset.start_loading(paths(1));
    assert!(!asset.awaiting_time_series_data());
    assert_eq!(load_all_time_series_data(&mut asset, vec![Some(vec![1.0])]), 0);
    assert!(asset.time_steps.is_empty());
    assert!(!asset.is_step2_complete);
}

#[test]
fn play_needs_loaded_frames() {
    let mut asset: TimeSeriesAsset<Vec<f32>> = TimeSeriesAsset::default();
    asset.play();
    assert!(!asset.is_playing);
    let mut asset = loaded(2);
    asset.play();
    assert!(asset.is_playing && asset.colors_need_update);
    assert!(asset.is_advancing());
    asset.pause();
    assert!(!asset.is_playing);
    assert!(!asset.is_advancing());
}

#[test]
fn stop_rewinds() {
    let mut asset = loaded(4);
    asset.play();
    asset.set_time_step(2);
    asset.stop();
    assert!(!asset.is_playing);
    assert_eq!(asset.current_time_step, 0);
}

#[test]
fn stop_refreshes_colours_of_the_first_frame() {
    let mut asset = loaded(4);
    asset.set_time_step(3);
    asset.finish_color_update(1);
    assert!(!asset.colors_need_update);
    asset.stop();
    assert_eq!(asset.current_time_step, 0);
    assert!(asset.colors_need_update);
    assert_eq!(asset.pending_color_frame().map(|f| f.time_step), Some(0));
    asset.finish_color_update(1);
    asset.stop();
    assert!(!asset.colors_need_update);
}

#[test]
fn stepping_keeps_the_loading_state() {
    let mut asset = loaded(3);
    let files = asset.all_file_paths.clone();
    let indices = asset.indices.clone();
    asset.next_time_step();
    asset.set_time_step(0);
    asset.prev_time_step();
    asset.stop();
    assert_eq!(asset.all_file_paths, files);
    assert_eq!(asset.indices, indices);
    assert!(asset.is_loaded && asset.is_step1_complete && asset.is_step2_complete);
    assert_eq!(asset.get_total_time_steps(), 3);
}

#[test]
fn set_time_step_ignores_missing_and_current_frames() {
    let mut asset = loaded(3);
    asset.set_time_step(2);
    assert_eq!(asset.current_time_step, 2);
    assert!(asset.colors_need_update);
    asset.finish_color_update(1);
    asset.set_time_step(2);
    assert!(!asset.colors_need_update);
    asset.set_time_step(3);
    assert_eq!(asset.current_time_step, 2);
    assert!(!asset.colors_need_update);
}

#[test]
fn stepping_forward_wraps_when_looping() {
    let mut asset = loaded(3);
    asset.next_time_step();
    asset.next_time_step();
    assert_eq!(asset.current_time_step, 2);
    asset.next_time_step();
    assert_eq!(asset.current_time_step, 0);
}

#[test]
fn stepping_forward_stops_at_the_end_without_looping() {
    let mut asset = loaded(2);
    asset.loop_animation = false;
    asset.play();
    asset.next_time_step();
    assert_eq!(asset.current_time_step, 1);
    assert!(asset.is_playing);
    asset.next_time_step();
    assert_eq!(asset.current_time_step, 1);
    assert!(!asset.is_playing);
}

#[test]
fn stepping_back_wraps_when_looping() {
    let mut asset = loaded(3);
    asset.prev_time_step();
    assert_eq!(asset.current_time_step, 2);
    asset.prev_time_step();
    assert_eq!(asset.current_time_step, 1);
}

#[test]
fn stepping_back_stays_at_the_start_without_looping() {
    let mut asset = loaded(3);
    asset.loop_animation = false;
    asset.finish_color_update(1);
    asset.prev_time_step();
    assert_eq!(asset.current_time_step, 0);
    assert!(!asset.colors_need_update);
}

#[test]
fn stepping_with_no_frames_changes_nothing() {
    let mut asset: TimeSeriesAsset<Vec<f32>> = TimeSeriesAsset::default();
    asset.next_time_step();
    asset.prev_time_step();
    assert_eq!(asset.current_time_step, 0);
    assert!(!asset.colors_need_update);
}

#[test]
fn looped_playback_returns_to_its_start() {
    let mut asset = loaded(5);
    asset.set_time_step(3);
    for _ in 0..5 {
        asset.next_time_step();
    }
    assert_eq!(asset.current_time_step, 3);
}

#[test]
fn forward_then_back_is_a_round_trip() {
    let mut asset = loaded(4);
    for start in 0..4 {
        asset.set_time_step(start);
        asset.next_time_step();
        asset.prev_time_step();
        assert_eq!(asset.current_time_step, start);
        asset.prev_time_step();
        asset.next_time_step();
        assert_eq!(asset.current_time_step, start);
    }
}

#[test]
fn pending_colours_come_from_the_current_frame() {
    let mut asset = loaded(3);
    assert!(asset.pending_color_frame().is_none());
    asset.set_time_step(1);
    let frame = asset.pending_color_frame().unwrap();
    assert_eq!(frame.time_step, 1);
    assert_eq!(frame.scalars, vec![1.0]);
    asset.finish_color_update(0);
    assert!(asset.colors_need_update);
    asset.finish_color_update(2);
    assert!(!asset.colors_need_update);
    assert!(asset.pending_color_frame().is_none());
    assert_eq!(asset.get_current_time_step_data().unwrap().time_step, 1);
}

fn stem_number(stem: &str) -> Option<u32> {
    let chars: Vec<char> = stem.chars().collect();
    frame_number(&chars)
}

#[test]
fn frame_number_after_last_underscore() {
    assert_eq!(stem_number("frame_12"), Some(12));
    assert_eq!(stem_number("run_a_007"), Some(7));
    assert_eq!(stem_number("a_+7"), Some(7));
}

#[test]
fn frame_number_of_whole_stem_without_underscore() {
    assert_eq!(stem_number("12"), Some(12));
    assert_eq!(stem_number("frame"), None);
    assert_eq!(stem_number(""), None);
}

#[test]
fn frame_number_rejects_what_is_not_a_number() {
    assert_eq!(stem_number("x_"), None);
    assert_eq!(stem_number("a_b"), None);
    assert_eq!(stem_number("a_1b"), None);
    assert_eq!(stem_number("a_+"), None);
    assert_eq!(stem_number("12_x"), None);
    assert_eq!(stem_number("a_-3"), None);
}

#[test]
fn frame_number_bounds() {
    assert_eq!(stem_number("n_4294967295"), Some(u32::MAX));
    assert_eq!(stem_number("n_4294967296"), None);
    assert_eq!(stem_number("n_99999999999"), None);
}

#[test]
fn frame_number_agrees_with_str_parse() {
    for stem in ["f_0", "f_10", "f_+5", "f_x", "7", "+", "f_1_2", "f_0042"] {
        let expected: Option<u32> = match stem.rfind('_') {
            Some(pos) => stem[pos + 1..].parse().ok(),
            None => stem.parse().ok(),
        };
        assert_eq!(stem_number(stem), expected, "{}", stem);
    }
}

#[test]
fn compare_frames_orders_numbered_files_first() {
    assert_eq!(compare_frames(Some(2), Some(10)), FrameOrder::Earlier);
    assert_eq!(compare_frames(Some(10), Some(2)), FrameOrder::Later);
    assert_eq!(compare_frames(Some(3), Some(3)), FrameOrder::Same);
    assert_eq!(compare_frames(Some(3), None), FrameOrder::Earlier);
    assert_eq!(compare_frames(None, Some(3)), FrameOrder::Later);
    assert_eq!(compare_frames(None, None), FrameOrder::ByName);
}
