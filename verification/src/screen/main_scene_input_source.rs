use vstd::prelude::*;
use crate::screen::main_scene_input::{
    CellSelectionState, CellSelectionType, PixelCellSelection, PixelSelection, ZoomChange,
};

verus! {

/// Sign of an integer: 1, 0 or -1.
pub open spec fn spec_sign(v: int) -> int {
    if v > 0 {
        1
    } else if v < 0 {
        -1
    } else {
        0
    }
}

/// How many levels to move up (or down, if negative) given the wheel and arrow keys: one level
/// in the direction they add up to, three with shift down.
pub fn get_changed_height(wheel_diff: i32, arrows_diff: i32, shift_down: bool) -> (result: i32)
    requires
        -1 <= wheel_diff <= 1,
        -1 <= arrows_diff <= 1,
    ensures
        result == spec_sign(wheel_diff + arrows_diff) * if shift_down {
            3int
        } else {
            1int
        },
{
    let total_diff = wheel_diff + arrows_diff;
    let mut change_height_rel: i32 = if total_diff > 0 {
        1
    } else if total_diff < 0 {
        -1
    } else {
        0
    };
    if shift_down {
        change_height_rel = change_height_rel * 3;
    }
    change_height_rel
}

/// The wheel moves levels unless control or super is down, when it zooms instead.
pub fn get_changed_height_with_wheel(control_or_super_down: bool, wheel_diff: i32) -> (result: i32)
    ensures
        result == if control_or_super_down {
            0
        } else {
            wheel_diff
        },
{
    if control_or_super_down {
        0
    } else {
        wheel_diff
    }
}

/// One level up if up (or W) was pressed, plus one level down if down (or S) was pressed.
pub fn get_vertical_arrow_pressed(up_pressed: bool, down_pressed: bool) -> (result: i32)
    ensures
        result == (if up_pressed {
            1int
        } else {
            0int
        }) - (if down_pressed {
            1int
        } else {
            0int
        }),
{
    (if up_pressed {
        1
    } else {
        0
    }) + if down_pressed {
        -1
    } else {
        0
    }
}

/// With control down, selecting with the left button adds cells and with the right button
/// removes them; otherwise a selection replaces the highlighted cells.
pub fn get_cell_selection_type(control_down: bool, left_button_active: bool, right_button_active: bool) -> (result: CellSelectionType)
    ensures
        result == if control_down && left_button_active {
            CellSelectionType::Add
        } else if control_down && right_button_active {
            CellSelectionType::Remove
        } else {
            CellSelectionType::Exclusive
        },
{
    if control_down {
        if left_button_active {
            CellSelectionType::Add
        } else if right_button_active {
            CellSelectionType::Remove
        } else {
            CellSelectionType::Exclusive
        }
    } else {
        CellSelectionType::Exclusive
    }
}

/// With control or super down, the wheel zooms in (up) or out (down).
pub fn get_zoom(control_or_super_down: bool, wheel_diff: i32) -> (result: ZoomChange)
    requires
        -1 <= wheel_diff <= 1,
    ensures
        result == if control_or_super_down && wheel_diff == 1 {
            ZoomChange::ZoomIn
        } else if control_or_super_down && wheel_diff == -1 {
            ZoomChange::ZoomOut
        } else {
            ZoomChange::NoChange
        },
{
    if control_or_super_down {
        if wheel_diff == 1 {
            ZoomChange::ZoomIn
        } else if wheel_diff == -1 {
            ZoomChange::ZoomOut
        } else {
            ZoomChange::NoChange
        }
    } else {
        ZoomChange::NoChange
    }
}

/// The pointer events of one frame: the state of each mouse button, whether control is down,
/// and where the mouse is.
#[derive(Copy, Clone, Debug)]
pub struct PointerEvents<P> {
    pub left_pressed: bool,
    pub left_down: bool,
    pub left_released: bool,
    pub right_pressed: bool,
    pub right_down: bool,
    pub right_released: bool,
    pub control_down: bool,
    pub mouse_position: P,
}

/// What the main scene remembers of the pointer from one frame to the next: where the map
/// was last dragged from, and where the selection being made started (with the left button,
/// or with the right button and control).
#[derive(Copy, Clone, Debug)]
pub struct MainSceneInputSource<P> {
    pub previous_wheel_click_pos: P,
    pub previous_left_click_pos: Option<P>,
    pub previous_right_click_pos_with_control: Option<P>,
}

/// Which selection a frame reports, from what ended and what started on it and where the
/// selection in course started: an ended selection first, then one started on this frame,
/// then one in course.
pub open spec fn spec_pixel_cell_selection<P>(
    end: Option<PixelSelection<P>>,
    start_this_frame: Option<P>,
    click_start: Option<P>,
    mouse: P,
    selection_type: CellSelectionType,
) -> PixelCellSelection<P> {
    match end {
        Some(e) => PixelCellSelection {
            state: CellSelectionState::Finished,
            pixel_selection: Some(e),
            selection_type,
        },
        None => match start_this_frame {
            Some(start) => PixelCellSelection {
                state: CellSelectionState::Started,
                pixel_selection: Some(PixelSelection { start, end: mouse }),
                selection_type,
            },
            None => match click_start {
                Some(start) => PixelCellSelection {
                    state: CellSelectionState::InProgress,
                    pixel_selection: Some(PixelSelection { start, end: mouse }),
                    selection_type,
                },
                None => PixelCellSelection {
                    state: CellSelectionState::NotSelecting,
                    pixel_selection: None,
                    selection_type: CellSelectionType::Exclusive,
                },
            },
        },
    }
}

impl<P: Copy> MainSceneInputSource<P> {
    pub fn new(origin: P) -> (result: MainSceneInputSource<P>)
        ensures
            result.previous_wheel_click_pos == origin,
            result.previous_left_click_pos is None,
            result.previous_right_click_pos_with_control is None,
    {
        MainSceneInputSource {
            previous_wheel_click_pos: origin,
            previous_left_click_pos: None,
            previous_right_click_pos_with_control: None,
        }
    }

    /// One frame of selecting cells: a left click starts a selection, and so does a right
    /// click with control; releasing that button ends it. Returns the next memory of the
    /// pointer and the selection to report.
    pub open spec fn spec_selection_step(self, events: PointerEvents<P>) -> (
        MainSceneInputSource<P>,
        PixelCellSelection<P>,
    ) {
        let mouse = events.mouse_position;
        let control = events.control_down;
        let left_start: Option<P> = if events.left_pressed {
            Some(mouse)
        } else {
            None
        };
        let right_start: Option<P> = if control && events.right_pressed {
            Some(mouse)
        } else {
            None
        };
        let left = if events.left_pressed {
            Some(mouse)
        } else {
            self.previous_left_click_pos
        };
        let right = if control && self.previous_right_click_pos_with_control is None {
            right_start
        } else {
            self.previous_right_click_pos_with_control
        };
        let left_end: Option<PixelSelection<P>> = if events.left_released && left is Some {
            Some(PixelSelection { start: left->0, end: mouse })
        } else {
            None
        };
        let right_end: Option<PixelSelection<P>> = if control && events.right_released
            && right is Some {
            Some(PixelSelection { start: right->0, end: mouse })
        } else {
            None
        };
        let left_after = if left_end is Some {
            None
        } else {
            left
        };
        let right_after = if right_end is Some {
            None
        } else {
            right
        };
        let selection_type = if control && (events.left_pressed || events.left_down
            || events.left_released) {
            CellSelectionType::Add
        } else if control && (events.right_pressed || events.right_down
            || events.right_released) {
            CellSelectionType::Remove
        } else {
            CellSelectionType::Exclusive
        };
        (
            MainSceneInputSource {
                previous_left_click_pos: left_after,
                previous_right_click_pos_with_control: right_after,
                ..self
            },
            spec_pixel_cell_selection(
                if left_end is Some {
                    left_end
                } else {
                    right_end
                },
                if left_start is Some {
                    left_start
                } else {
                    right_start
                },
                if left_after is Some {
                    left_after
                } else {
                    right_after
                },
                mouse,
                selection_type,
            ),
        )
    }

    fn get_left_click_position(&mut self, events: &PointerEvents<P>) -> (result: Option<P>)
        ensures
            result == if events.left_pressed {
                Some(events.mouse_position)
            } else {
                None
            },
            *final(self) == (MainSceneInputSource {
                previous_left_click_pos: if events.left_pressed {
                    Some(events.mouse_position)
                } else {
                    old(self).previous_left_click_pos
                },
                ..*old(self)
            }),
    {
        if events.left_pressed {
            let position = events.mouse_position;
            self.previous_left_click_pos = Some(position);
            Some(position)
        } else {
            None
        }
    }

    fn get_right_click_position_with_control(&mut self, events: &PointerEvents<P>) -> (result:
        Option<P>)
        ensures
            result == if events.control_down && events.right_pressed {
                Some(events.mouse_position)
            } else {
                None
            },
            *final(self) == (MainSceneInputSource {
                previous_right_click_pos_with_control: if events.control_down
                    && old(self).previous_right_click_pos_with_control is None {
                    result
                } else {
                    old(self).previous_right_click_pos_with_control
                },
                ..*old(self)
            }),
    {
        if events.control_down {
            let pos = get_right_click_position(events);
            if self.previous_right_click_pos_with_control.is_none() {
                self.previous_right_click_pos_with_control = pos;
            }
            pos
        } else {
            None
        }
    }

    fn get_left_click_release(&mut self, events: &PointerEvents<P>) -> (result: Option<
        PixelSelection<P>,
    >)
        ensures
            result == if events.left_released && old(self).previous_left_click_pos is Some {
                Some(
                    PixelSelection {
                        start: old(self).previous_left_click_pos->0,
                        end: events.mouse_position,
                    },
                )
            } else {
                None
            },
            *final(self) == (MainSceneInputSource {
                previous_left_click_pos: if result is Some {
                    None
                } else {
                    old(self).previous_left_click_pos
                },
                ..*old(self)
            }),
    {
        match self.previous_left_click_pos {
            Some(start) => {
                if events.left_released {
                    self.previous_left_click_pos = None;
                    Some(PixelSelection { start, end: events.mouse_position })
                } else {
                    None
                }
            },
            None => None,
        }
    }

    fn get_right_click_release(&self, events: &PointerEvents<P>) -> (result: Option<
        PixelSelection<P>,
    >)
        ensures
            result == if events.right_released && self.previous_right_click_pos_with_control is Some {
                Some(
                    PixelSelection {
                        start: self.previous_right_click_pos_with_control->0,
                        end: events.mouse_position,
                    },
                )
            } else {
                None
            },
    {
        match self.previous_right_click_pos_with_control {
            Some(start) => {
                if events.right_released {
                    Some(PixelSelection { start, end: events.mouse_position })
                } else {
                    None
                }
            },
            None => None,
        }
    }

    fn get_right_click_release_with_control(&mut self, events: &PointerEvents<P>) -> (result:
        Option<PixelSelection<P>>)
        ensures
            result == if events.control_down && events.right_released
                && old(self).previous_right_click_pos_with_control is Some {
                Some(
                    PixelSelection {
                        start: old(self).previous_right_click_pos_with_control->0,
                        end: events.mouse_position,
                    },
                )
            } else {
                None
            },
            *final(self) == (MainSceneInputSource {
                previous_right_click_pos_with_control: if result is Some {
                    None
                } else {
                    old(self).previous_right_click_pos_with_control
                },
                ..*old(self)
            }),
    {
        if events.control_down {
            let selection = self.get_right_click_release(events);
            if selection.is_some() {
                self.previous_right_click_pos_with_control = None;
            }
            selection
        } else {
            None
        }
    }

    /// The selection of this frame; see `spec_selection_step`.
    pub fn get_cell_selection(&mut self, events: &PointerEvents<P>) -> (result: PixelCellSelection<
        P,
    >)
        ensures
            (*final(self), result) == old(self).spec_selection_step(*events),
    {
        let left_start = self.get_left_click_position(events);
        let right_start = self.get_right_click_position_with_control(events);
        let start_selection_this_frame = match left_start {
            Some(start) => Some(start),
            None => right_start,
        };
        let left_end = self.get_left_click_release(events);
        let right_end = self.get_right_click_release_with_control(events);
        let end_selection = match left_end {
            Some(end) => Some(end),
            None => right_end,
        };
        let mouse_position = events.mouse_position;
        let addition = get_cell_selection_type(
            events.control_down,
            events.left_pressed || events.left_down || events.left_released,
            events.right_pressed || events.right_down || events.right_released,
        );
        let click_start = match self.previous_left_click_pos {
            Some(start) => Some(start),
            None => self.previous_right_click_pos_with_control,
        };
        match end_selection {
            None => match start_selection_this_frame {
                None => match click_start {
                    None => PixelCellSelection::no_selection(),
                    Some(start) => PixelCellSelection::in_progress(
                        PixelSelection { start, end: mouse_position },
                        addition,
                    ),
                },
                Some(start) => PixelCellSelection::started(
                    PixelSelection { start, end: mouse_position },
                    addition,
                ),
            },
            Some(end) => PixelCellSelection::finished(end, addition),
        }
    }

    /// Where the robots are sent: a right click without control.
    pub fn get_robot_movement(&self, events: &PointerEvents<P>) -> (result: Option<P>)
        ensures
            result == if !events.control_down && events.right_pressed {
                Some(events.mouse_position)
            } else {
                None
            },
    {
        if events.control_down {
            None
        } else {
            get_right_click_position(events)
        }
    }
}

/// Where the right button was clicked on this frame, if it was.
fn get_right_click_position<P: Copy>(events: &PointerEvents<P>) -> (result: Option<P>)
    ensures
        result == if events.right_pressed {
            Some(events.mouse_position)
        } else {
            None
        },
{
    if events.right_pressed {
        Some(events.mouse_position)
    } else {
        None
    }
}

/// Pressing the left button (without control), holding it and releasing it reports a selection
/// started, then in course, then finished, all from the point where the button was pressed to
/// where the mouse is; the selection replaces the highlighted cells, and afterwards no
/// selection is in course.
pub proof fn lemma_left_drag_selects<P: Copy>(
    memory: MainSceneInputSource<P>,
    press: PointerEvents<P>,
    hold: PointerEvents<P>,
    release: PointerEvents<P>,
)
    requires
        memory.previous_left_click_pos is None,
        memory.previous_right_click_pos_with_control is None,
        press.left_pressed && !press.left_released && !press.control_down,
        !hold.left_pressed && !hold.left_released && !hold.control_down,
        !release.left_pressed && release.left_released && !release.control_down,
    ensures
        ({
            let (after_press, started) = memory.spec_selection_step(press);
            let (after_hold, in_course) = after_press.spec_selection_step(hold);
            let (after_release, finished) = after_hold.spec_selection_step(release);
            let from = press.mouse_position;
            &&& started == PixelCellSelection {
                state: CellSelectionState::Started,
                pixel_selection: Some(PixelSelection { start: from, end: from }),
                selection_type: CellSelectionType::Exclusive,
            }
            &&& in_course == PixelCellSelection {
                state: CellSelectionState::InProgress,
                pixel_selection: Some(PixelSelection { start: from, end: hold.mouse_position }),
                selection_type: CellSelectionType::Exclusive,
            }
            &&& finished == PixelCellSelection {
                state: CellSelectionState::Finished,
                pixel_selection: Some(PixelSelection { start: from, end: release.mouse_position }),
                selection_type: CellSelectionType::Exclusive,
            }
            &&& after_release.previous_left_click_pos is None
            &&& after_release.previous_right_click_pos_with_control is None
        }),
{
}

} // verus!
