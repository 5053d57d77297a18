//! The title page: its buttons, where they lie on the screen, what a
//! click on the page asks for, and what the player's answers change.

use crate::text::{decimal_u32, numeric_part, parse_count};
use vstd::prelude::*;

verus! {

/// Where a button lies on the screen.
#[derive(Clone, Copy, Debug, PartialEq, Eq)]
pub enum ButtonPos {
    /// At a fixed place: the x and y of its upper left corner.
    Fixed((u32, u32)),
    /// In the middle of the screen's width, at the given y.
    Centered(u32),
    /// Moved from the middle of the screen's width by the given offset,
    /// which may be negative, at the given y.
    CenteredOffset((i32, u32)),
}

/// Whether the pointer is over a button.
#[derive(Clone, Copy, Debug, PartialEq, Eq, Structural)]
pub enum ButtonState {
    Normal,
    Hover,
}

/// A button of the title page.
pub struct Button {
    pub pos: ButtonPos,
    pub w: u32,
    pub h: u32,
    pub label: String,
    pub state: ButtonState,
}

/// The x at which something `width` wide begins when it is centred on a
/// screen `screen_width` wide: half of what the screen has left over, and
/// the left edge where the screen is the narrower of the two.
pub open spec fn centered_x(width: int, screen_width: int) -> int {
    if screen_width >= width {
        (screen_width - width) / 2
    } else {
        0
    }
}

/// The state of a button when the pointer is at `(x, y)` on a screen `w`
/// wide.
pub open spec fn hover(button: Button, x: u32, y: u32, w: u32) -> ButtonState {
    if button.covers(x as int, y as int, w as int) {
        ButtonState::Hover
    } else {
        ButtonState::Normal
    }
}

/// Two buttons differ in nothing but, perhaps, their state.
pub open spec fn same_but_state(a: Button, b: Button) -> bool {
    a.pos == b.pos && a.w == b.w && a.h == b.h && a.label == b.label
}

impl Button {
    /// The button's upper left corner on a screen `screen_width` wide. A
    /// corner that an offset would move off the left edge is held at it.
    pub open spec fn upper_left(&self, screen_width: int) -> (int, int) {
        match self.pos {
            ButtonPos::Fixed((x, y)) => (x as int, y as int),
            ButtonPos::Centered(y) => (centered_x(self.w as int, screen_width), y as int),
            ButtonPos::CenteredOffset((xoff, y)) => {
                let xpos = centered_x(self.w as int, screen_width) + xoff;
                (if xpos > 0 { xpos } else { 0 }, y as int)
            },
        }
    }

    /// Whether the point `(x, y)` lies on the button, its edges included,
    /// on a screen `screen_width` wide.
    pub open spec fn covers(&self, x: int, y: int, screen_width: int) -> bool {
        let (xbound, ybound) = self.upper_left(screen_width);
        xbound <= x <= xbound + self.w && ybound <= y <= ybound + self.h
    }

    /// The x at which the button begins when it is centred on a screen
    /// `screen_width` wide.
    fn get_left_x(&self, screen_width: u32) -> (x: u32)
        ensures
            x == centered_x(self.w as int, screen_width as int),
    {
        if screen_width >= self.w {
            (screen_width - self.w) / 2
        } else {
            0
        }
    }

    /// The button's upper left corner on a screen `screen_width` wide.
    pub fn get_upper_left(&self, screen_width: u32) -> (corner: (u32, u32))
        ensures
            (corner.0 as int, corner.1 as int) == self.upper_left(screen_width as int),
    {
        match self.pos {
            ButtonPos::Fixed((x, y)) => (x, y),
            ButtonPos::Centered(y) => (self.get_left_x(screen_width), y),
            ButtonPos::CenteredOffset((xoff, y)) => {
                let xpos: i64 = self.get_left_x(screen_width) as i64 + xoff as i64;
                let xpos: u32 = if xpos > 0 {
                    xpos as u32
                } else {
                    0
                };
                (xpos, y)
            },
        }
    }

    /// Whether the point `(x, y)` lies on the button, on a screen `w` wide
    /// and `h` high.
    pub fn in_bound(&self, x: u32, y: u32, w: u32, h: u32) -> (inside: bool)
        ensures
            inside == self.covers(x as int, y as int, w as int),
    {
        let (xbound, ybound) = self.get_upper_left(w);
        x >= xbound && x as u64 <= xbound as u64 + self.w as u64 && y >= ybound && y as u64
            <= ybound as u64 + self.h as u64
    }

    /// The pointer moved to `(mx, my)`: the button hovers where the pointer
    /// is on it, and is normal elsewhere. Nothing else of it changes.
    pub fn mouse_move(&mut self, mx: u32, my: u32, w: u32, h: u32)
        ensures
            final(self).state == hover(*old(self), mx, my, w),
            same_but_state(*final(self), *old(self)),
    {
        self.state = if self.in_bound(mx, my, w, h) {
            ButtonState::Hover
        } else {
            ButtonState::Normal
        };
    }
}

/// What a click on the title page asks for.
#[derive(Clone, Copy, Debug, PartialEq, Eq, Structural)]
pub enum TitleEvent {
    /// The player wants to play: a puzzle is to be made.
    PlayClick,
    /// Nothing that ends the title page.
    NoEvent,
}

/// What a click on the title page leads to: the event, and which of the
/// player's answers are to be asked for before the click is done with. The
/// answers are asked for in the order of the fields, and each is handed to
/// the page by the function made for it.
#[derive(Clone, Copy, Debug, PartialEq, Eq, Structural)]
pub struct TitleClick {
    pub event: TitleEvent,
    /// The picture's file is to be chosen: see `Title::file_chosen`.
    pub choose_file: bool,
    /// The number of columns is to be entered: see `Title::width_entered`.
    pub ask_width: bool,
    /// The number of rows is to be entered: see `Title::height_entered`.
    pub ask_height: bool,
}

/// The title page: the shape and the picture of the puzzle to be played,
/// the high score, and the page's four buttons.
pub struct Title {
    pub grid_w: u32,
    pub grid_h: u32,
    pub grid_img_path: String,
    pub high_score: u32,
    pub play_btn: Button,
    pub file_choose_btn: Button,
    pub width_btn: Button,
    pub height_btn: Button,
}

impl Title {
    /// The title page as it first shows, with the given high score: a grid
    /// of five by five, the sample picture, and the four buttons in their
    /// places, none of them hovered over.
    pub fn new(hs: u32) -> (title: Title)
        ensures
            title.grid_w == 5,
            title.grid_h == 5,
            title.grid_img_path@ == "./res/sample.jpg"@,
            title.high_score == hs,
            title.play_btn.pos == ButtonPos::Centered(145),
            title.play_btn.w == 140,
            title.play_btn.h == 40,
            title.play_btn.label@ == "Play Game!"@,
            title.play_btn.state == ButtonState::Normal,
            title.file_choose_btn.pos == ButtonPos::Centered(195),
            title.file_choose_btn.w == 160,
            title.file_choose_btn.h == 40,
            title.file_choose_btn.label@ == "Choose Image"@,
            title.file_choose_btn.state == ButtonState::Normal,
            title.width_btn.pos == ButtonPos::CenteredOffset((-25i32, 245u32)),
            title.width_btn.w == 40,
            title.width_btn.h == 40,
            title.width_btn.label@ == "W"@,
            title.width_btn.state == ButtonState::Normal,
            title.height_btn.pos == ButtonPos::CenteredOffset((25i32, 245u32)),
            title.height_btn.w == 40,
            title.height_btn.h == 40,
            title.height_btn.label@ == "H"@,
            title.height_btn.state == ButtonState::Normal,
    {
        broadcast use vstd::string::group_string_axioms;

        Title {
            grid_w: 5,
            grid_h: 5,
            grid_img_path: "./res/sample.jpg".to_string(),
            high_score: hs,
            play_btn: Button {
                pos: ButtonPos::Centered(145),
                w: 140,
                h: 40,
                label: "Play Game!".to_string(),
                state: ButtonState::Normal,
            },
            file_choose_btn: Button {
                pos: ButtonPos::Centered(195),
                w: 160,
                h: 40,
                label: "Choose Image".to_string(),
                state: ButtonState::Normal,
            },
            width_btn: Button {
                pos: ButtonPos::CenteredOffset((-25, 245)),
                w: 40,
                h: 40,
                label: "W".to_string(),
                state: ButtonState::Normal,
            },
            height_btn: Button {
                pos: ButtonPos::CenteredOffset((25, 245)),
                w: 40,
                h: 40,
                label: "H".to_string(),
                state: ButtonState::Normal,
            },
        }
    }

    /// The per-frame tick. It changes nothing.
    pub fn update(&mut self)
        ensures
            *final(self) == *old(self),
    {
    }

    /// A click at `(raw_x, raw_y)` on a screen `w` wide and `h` high. A
    /// click on the play button asks for the game and for nothing else.
    /// Any other click asks for an answer for each of the other three
    /// buttons that it is on, and for no event.
    pub fn click(&self, raw_x: u32, raw_y: u32, w: u32, h: u32) -> (click: TitleClick)
        ensures
            self.play_btn.covers(raw_x as int, raw_y as int, w as int) ==> click == (TitleClick {
                event: TitleEvent::PlayClick,
                choose_file: false,
                ask_width: false,
                ask_height: false,
            }),
            !self.play_btn.covers(raw_x as int, raw_y as int, w as int) ==> click == (TitleClick {
                event: TitleEvent::NoEvent,
                choose_file: self.file_choose_btn.covers(raw_x as int, raw_y as int, w as int),
                ask_width: self.width_btn.covers(raw_x as int, raw_y as int, w as int),
                ask_height: self.height_btn.covers(raw_x as int, raw_y as int, w as int),
            }),
    {
        if self.play_btn.in_bound(raw_x, raw_y, w, h) {
            return TitleClick {
                event: TitleEvent::PlayClick,
                choose_file: false,
                ask_width: false,
                ask_height: false,
            };
        }
        TitleClick {
            event: TitleEvent::NoEvent,
            choose_file: self.file_choose_btn.in_bound(raw_x, raw_y, w, h),
            ask_width: self.width_btn.in_bound(raw_x, raw_y, w, h),
            ask_height: self.height_btn.in_bound(raw_x, raw_y, w, h),
        }
    }

    /// The player was asked for the picture's file. A file that was chosen
    /// becomes the picture; where none was, the picture stays.
    pub fn file_chosen(&mut self, chosen: Option<String>)
        ensures
            final(self).grid_img_path == match chosen {
                Some(path) => path,
                None => old(self).grid_img_path,
            },
            final(self).grid_w == old(self).grid_w,
            final(self).grid_h == old(self).grid_h,
            final(self).high_score == old(self).high_score,
            final(self).play_btn == old(self).play_btn,
            final(self).file_choose_btn == old(self).file_choose_btn,
            final(self).width_btn == old(self).width_btn,
            final(self).height_btn == old(self).height_btn,
    {
        if let Some(pth) = chosen {
            self.grid_img_path = pth;
        }
    }

    /// The player was asked for the number of columns. An answer that
    /// reads as a number becomes the number of columns; without an answer,
    /// or with one that reads as none, the number stays.
    pub fn width_entered(&mut self, answer: Option<String>)
        ensures
            final(self).grid_w == match answer {
                Some(text) => match decimal_u32(numeric_part(text@)) {
                    Some(count) => count,
                    None => old(self).grid_w,
                },
                None => old(self).grid_w,
            },
            final(self).grid_h == old(self).grid_h,
            final(self).grid_img_path == old(self).grid_img_path,
            final(self).high_score == old(self).high_score,
            final(self).play_btn == old(self).play_btn,
            final(self).file_choose_btn == old(self).file_choose_btn,
            final(self).width_btn == old(self).width_btn,
            final(self).height_btn == old(self).height_btn,
    {
        if let Some(new_width) = answer {
            if let Some(w) = parse_count(new_width.as_str()) {
                self.grid_w = w;
            }
        }
    }

    /// The player was asked for the number of rows. An answer that reads
    /// as a number becomes the number of rows; without an answer, or with
    /// one that reads as none, the number stays.
    pub fn height_entered(&mut self, answer: Option<String>)
        ensures
            final(self).grid_h == match answer {
                Some(text) => match decimal_u32(numeric_part(text@)) {
                    Some(count) => count,
                    None => old(self).grid_h,
                },
                None => old(self).grid_h,
            },
            final(self).grid_w == old(self).grid_w,
            final(self).grid_img_path == old(self).grid_img_path,
            final(self).high_score == old(self).high_score,
            final(self).play_btn == old(self).play_btn,
            final(self).file_choose_btn == old(self).file_choose_btn,
            final(self).width_btn == old(self).width_btn,
            final(self).height_btn == old(self).height_btn,
    {
        if let Some(new_height) = answer {
            if let Some(h) = parse_count(new_height.as_str()) {
                self.grid_h = h;
            }
        }
    }

    /// The pointer moved to `(raw_x, raw_y)`: each button hovers where the
    /// pointer is on it, and is normal elsewhere. Nothing else changes.
    pub fn mouse_move(&mut self, raw_x: u32, raw_y: u32, w: u32, h: u32)
        ensures
            final(self).play_btn.state == hover(old(self).play_btn, raw_x, raw_y, w),
            final(self).file_choose_btn.state == hover(old(self).file_choose_btn, raw_x, raw_y, w),
            final(self).width_btn.state == hover(old(self).width_btn, raw_x, raw_y, w),
            final(self).height_btn.state == hover(old(self).height_btn, raw_x, raw_y, w),
            same_but_state(final(self).play_btn, old(self).play_btn),
            same_but_state(final(self).file_choose_btn, old(self).file_choose_btn),
            same_but_state(final(self).width_btn, old(self).width_btn),
            same_but_state(final(self).height_btn, old(self).height_btn),
            final(self).grid_w == old(self).grid_w,
            final(self).grid_h == old(self).grid_h,
            final(self).grid_img_path == old(self).grid_img_path,
            final(self).high_score == old(self).high_score,
    {
        self.play_btn.mouse_move(raw_x, raw_y, w, h);
        self.file_choose_btn.mouse_move(raw_x, raw_y, w, h);
        self.width_btn.mouse_move(raw_x, raw_y, w, h);
        self.height_btn.mouse_move(raw_x, raw_y, w, h);
    }
}

} // verus!
