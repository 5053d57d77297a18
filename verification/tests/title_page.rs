use slide_puzzle::text::parse_count;
use slide_puzzle::title_page::{
    Button, ButtonPos, ButtonState, Title, TitleClick, TitleEvent,
};

fn button(pos: ButtonPos, w: u32, h: u32) -> Button {
    Button { pos, w, h, label: "b".to_string(), state: ButtonState::Normal }
}

#[test]
fn fixed_button_covers_its_rectangle_edges_included() {
    let b = button(ButtonPos::Fixed((10, 20)), 30, 40);
    assert!(b.in_bound(10, 20, 400, 400));
    assert!(b.in_bound(40, 60, 400, 400));
    assert!(b.in_bound(25, 35, 400, 400));
    assert!(!b.in_bound(9, 20, 400, 400));
    assert!(!b.in_bound(41, 20, 400, 400));
    assert!(!b.in_bound(10, 19, 400, 400));
    assert!(!b.in_bound(10, 61, 400, 400));
}

#[test]
fn centered_button_starts_at_half_the_space_left() {
    let b = button(ButtonPos::Centered(145), 140, 40);
    assert!(b.in_bound(130, 145, 400, 400));
    assert!(!b.in_bound(129, 145, 400, 400));
    assert!(b.in_bound(270, 185, 400, 400));
    assert!(!b.in_bound(271, 185, 400, 400));
    assert!(b.in_bound(130, 150, 401, 400));
    assert!(!b.in_bound(129, 150, 401, 400));
    assert!(b.in_bound(131, 150, 402, 400));
    assert!(!b.in_bound(130, 150, 402, 400));
}

#[test]
fn centered_button_on_a_narrow_screen_starts_at_the_left_edge() {
    let b = button(ButtonPos::Centered(0), 140, 40);
    assert!(b.in_bound(0, 0, 100, 400));
    assert!(b.in_bound(140, 40, 100, 400));
    assert!(!b.in_bound(141, 40, 100, 400));
    assert!(b.in_bound(0, 0, 140, 400));
    assert!(b.in_bound(0, 0, 141, 400));
    assert!(!b.in_bound(0, 0, 142, 400));
}

#[test]
fn offset_button_is_moved_from_the_centre() {
    let left = button(ButtonPos::CenteredOffset((-25, 245)), 40, 40);
    assert!(left.in_bound(155, 245, 400, 400));
    assert!(!left.in_bound(154, 245, 400, 400));
    assert!(left.in_bound(195, 285, 400, 400));
    assert!(!left.in_bound(196, 285, 400, 400));
    let right = button(ButtonPos::CenteredOffset((25, 245)), 40, 40);
    assert!(right.in_bound(205, 245, 400, 400));
    assert!(!right.in_bound(204, 245, 400, 400));
    assert!(right.in_bound(245, 285, 400, 400));
    assert!(!right.in_bound(246, 285, 400, 400));
}

#[test]
fn offset_button_is_held_at_the_left_edge() {
    let b = button(ButtonPos::CenteredOffset((-25, 10)), 40, 40);
    assert!(b.in_bound(0, 10, 60, 400));
    assert!(b.in_bound(40, 50, 60, 400));
    assert!(!b.in_bound(41, 50, 60, 400));
    let far = button(ButtonPos::CenteredOffset((i32::MIN, 10)), 40, 40);
    assert!(far.in_bound(0, 10, u32::MAX, 400));
    assert!(!far.in_bound(41, 10, u32::MAX, 400));
}

#[test]
fn button_far_right_does_not_wrap() {
    let b = button(ButtonPos::Fixed((u32::MAX - 5, u32::MAX - 5)), 40, 40);
    assert!(b.in_bound(u32::MAX, u32::MAX, 400, 400));
    assert!(b.in_bound(u32::MAX - 5, u32::MAX - 5, 400, 400));
    assert!(!b.in_bound(0, 0, 400, 400));
    assert!(!b.in_bound(u32::MAX - 6, u32::MAX, 400, 400));
    let wide = button(ButtonPos::CenteredOffset((i32::MAX, 0)), 1, 1);
    assert!(wide.in_bound(4294967294, 0, u32::MAX, 400));
    assert!(wide.in_bound(4294967295, 1, u32::MAX, 400));
    assert!(!wide.in_bound(4294967293, 0, u32::MAX, 400));
    assert!(!wide.in_bound(4294967294, 2, u32::MAX, 400));
}

#[test]
fn upper_left_corner_of_each_kind_of_button() {
    assert_eq!(button(ButtonPos::Fixed((10, 20)), 30, 40).get_upper_left(400), (10, 20));
    assert_eq!(button(ButtonPos::Centered(145), 140, 40).get_upper_left(400), (130, 145));
    assert_eq!(button(ButtonPos::Centered(145), 140, 40).get_upper_left(401), (130, 145));
    assert_eq!(button(ButtonPos::Centered(145), 140, 40).get_upper_left(139), (0, 145));
    let offset = |xoff: i32| button(ButtonPos::CenteredOffset((xoff, 245)), 40, 40);
    assert_eq!(offset(-25).get_upper_left(400), (155, 245));
    assert_eq!(offset(25).get_upper_left(400), (205, 245));
    assert_eq!(offset(-25).get_upper_left(60), (0, 245));
    assert_eq!(offset(-10).get_upper_left(60), (0, 245));
    assert_eq!(offset(-9).get_upper_left(60), (1, 245));
}

#[test]
fn button_hovers_while_the_pointer_is_on_it() {
    let mut b = button(ButtonPos::Fixed((10, 20)), 30, 40);
    b.mouse_move(15, 25, 400, 400);
    assert_eq!(b.state, ButtonState::Hover);
    b.mouse_move(15, 25, 400, 400);
    assert_eq!(b.state, ButtonState::Hover);
    b.mouse_move(5, 25, 400, 400);
    assert_eq!(b.state, ButtonState::Normal);
    assert_eq!(b.pos, ButtonPos::Fixed((10, 20)));
    assert_eq!((b.w, b.h), (30, 40));
    assert_eq!(b.label, "b");
}

#[test]
fn title_page_starts_with_its_defaults() {
    let title = Title::new(17);
    assert_eq!(title.grid_w, 5);
    assert_eq!(title.grid_h, 5);
    assert_eq!(title.grid_img_path, "./res/sample.jpg");
    assert_eq!(title.high_score, 17);
    assert_eq!(title.play_btn.pos, ButtonPos::Centered(145));
    assert_eq!((title.play_btn.w, title.play_btn.h), (140, 40));
    assert_eq!(title.play_btn.label, "Play Game!");
    assert_eq!(title.file_choose_btn.pos, ButtonPos::Centered(195));
    assert_eq!((title.file_choose_btn.w, title.file_choose_btn.h), (160, 40));
    assert_eq!(title.file_choose_btn.label, "Choose Image");
    assert_eq!(title.width_btn.pos, ButtonPos::CenteredOffset((-25, 245)));
    assert_eq!((title.width_btn.w, title.width_btn.h), (40, 40));
    assert_eq!(title.width_btn.label, "W");
    assert_eq!(title.height_btn.pos, ButtonPos::CenteredOffset((25, 245)));
    assert_eq!((title.height_btn.w, title.height_btn.h), (40, 40));
    assert_eq!(title.height_btn.label, "H");
    assert_eq!(title.play_btn.state, ButtonState::Normal);
    assert_eq!(title.height_btn.state, ButtonState::Normal);
}

fn quiet(choose_file: bool, ask_width: bool, ask_height: bool) -> TitleClick {
    TitleClick { event: TitleEvent::NoEvent, choose_file, ask_width, ask_height }
}

#[test]
fn click_on_play_asks_for_the_game_only() {
    let title = Title::new(0);
    let click = title.click(200, 150, 400, 400);
    assert_eq!(
        click,
        TitleClick {
            event: TitleEvent::PlayClick,
            choose_file: false,
            ask_width: false,
            ask_height: false
        }
    );
}

#[test]
fn click_on_each_other_button_asks_for_its_answer() {
    let title = Title::new(0);
    assert_eq!(title.click(200, 200, 400, 400), quiet(true, false, false));
    assert_eq!(title.click(160, 250, 400, 400), quiet(false, true, false));
    assert_eq!(title.click(240, 250, 400, 400), quiet(false, false, true));
    assert_eq!(title.click(200, 250, 400, 400), quiet(false, false, false));
    assert_eq!(title.click(5, 5, 400, 400), quiet(false, false, false));
    assert_eq!(title.click(200, 190, 400, 400), quiet(false, false, false));
}

#[test]
fn click_where_two_buttons_overlap_asks_for_both() {
    let title = Title::new(0);
    assert_eq!(title.click(30, 250, 30, 400), quiet(false, true, true));
    assert_eq!(title.click(10, 250, 30, 400), quiet(false, true, false));
    assert_eq!(title.click(50, 250, 30, 400), quiet(false, false, true));
}

#[test]
fn chosen_file_becomes_the_picture() {
    let mut title = Title::new(0);
    title.file_chosen(None);
    assert_eq!(title.grid_img_path, "./res/sample.jpg");
    title.file_chosen(Some("/tmp/cat.png".to_string()));
    assert_eq!(title.grid_img_path, "/tmp/cat.png");
    assert_eq!((title.grid_w, title.grid_h), (5, 5));
}

#[test]
fn entered_numbers_become_the_shape() {
    let mut title = Title::new(0);
    title.width_entered(Some("7".to_string()));
    assert_eq!((title.grid_w, title.grid_h), (7, 5));
    title.height_entered(Some(" 1 2 ".to_string()));
    assert_eq!((title.grid_w, title.grid_h), (7, 12));
    title.width_entered(None);
    title.height_entered(None);
    assert_eq!((title.grid_w, title.grid_h), (7, 12));
    title.width_entered(Some("wide".to_string()));
    title.height_entered(Some("99999999999".to_string()));
    assert_eq!((title.grid_w, title.grid_h), (7, 12));
    title.width_entered(Some("0".to_string()));
    assert_eq!(title.grid_w, 0);
    assert_eq!(title.grid_img_path, "./res/sample.jpg");
}

#[test]
fn title_hooks() {
    let mut title = Title::new(4);
    title.update();
    assert_eq!(title.high_score, 4);
    title.mouse_move(200, 150, 400, 400);
    assert_eq!(title.play_btn.state, ButtonState::Hover);
    assert_eq!(title.file_choose_btn.state, ButtonState::Normal);
    title.mouse_move(30, 250, 30, 400);
    assert_eq!(title.play_btn.state, ButtonState::Normal);
    assert_eq!(title.width_btn.state, ButtonState::Hover);
    assert_eq!(title.height_btn.state, ButtonState::Hover);
    assert_eq!((title.grid_w, title.grid_h), (5, 5));
    assert_eq!(title.play_btn.label, "Play Game!");
}

#[test]
fn parse_count_reads_the_digits() {
    assert_eq!(parse_count("5"), Some(5));
    assert_eq!(parse_count("12"), Some(12));
    assert_eq!(parse_count("007"), Some(7));
    assert_eq!(parse_count("0"), Some(0));
    assert_eq!(parse_count("4294967295"), Some(u32::MAX));
}

#[test]
fn parse_count_passes_over_what_is_not_numeric() {
    assert_eq!(parse_count("a1b2c"), Some(12));
    assert_eq!(parse_count(" 3 x 4 "), Some(34));
    assert_eq!(parse_count("-5"), Some(5));
    assert_eq!(parse_count("+8"), Some(8));
    assert_eq!(parse_count("1_000"), Some(1000));
    assert_eq!(parse_count("2.5"), Some(25));
    assert_eq!(parse_count("é7ü"), Some(7));
}

#[test]
fn parse_count_finds_no_number() {
    assert_eq!(parse_count(""), None);
    assert_eq!(parse_count("abc"), None);
    assert_eq!(parse_count("+-"), None);
    assert_eq!(parse_count("4294967296"), None);
    assert_eq!(parse_count("99999999999999999999"), None);
    assert_eq!(parse_count("42949672950"), None);
}

#[test]
fn parse_count_keeps_numeric_characters_that_are_no_digits() {
    assert_eq!(parse_count("\u{0663}"), None);
    assert_eq!(parse_count("1\u{00bd}"), None);
    assert_eq!(parse_count("\u{ff11}2"), None);
    assert_eq!(parse_count("7\u{2167}"), None);
    assert_eq!(parse_count("12\u{00b2}"), None);
}
