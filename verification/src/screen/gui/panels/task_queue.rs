use vstd::prelude::*;
use crate::screen::drawing_state::DrawingState;
use crate::screen::gui::format_units::{decimal_string, spec_decimal};
use crate::screen::gui::gui_actions::GuiActions;
use crate::screen::gui::panels::draw_available_transformations::{spec_action_str, to_action_str};
use crate::screen::main_scene_input::CellSelection;
use crate::world::world_map::cell::TileType;
use crate::world::world_map::transform_cells::TransformationFailure;
use crate::world::Task;

verus! {

/// The line that tells why a task is blocked.
pub open spec fn spec_reason_line(reason: TransformationFailure) -> Seq<char> {
    match reason {
        TransformationFailure::NotEnoughMaterial => "  Not enough resources"@,
        TransformationFailure::NotEnoughStorage => "  Not enough storage capacity"@,
        TransformationFailure::AboveWouldCollapse => "  Cells above would collapse"@,
        TransformationFailure::NoSturdyBase => "  Cells below can not support it"@,
        TransformationFailure::WouldOccludeSolarPanel => "  It would block a solar panel's sunlight"@,
        TransformationFailure::OccludedSolarPanel => "  A solar panel here would not get sunlight"@,
        TransformationFailure::OutOfShipReach => "  The spaceship network can't reach"@,
        TransformationFailure::CanNotDeconstructShip => "  You're not allowed to remove the spaceship"@,
        TransformationFailure::SplitNetwork => "  It would split a network"@,
    }
}

/// Every reason, in the alphabetical order of its line.
pub open spec fn spec_reason_order() -> Seq<TransformationFailure> {
    seq![
        TransformationFailure::OccludedSolarPanel,
        TransformationFailure::AboveWouldCollapse,
        TransformationFailure::NoSturdyBase,
        TransformationFailure::WouldOccludeSolarPanel,
        TransformationFailure::SplitNetwork,
        TransformationFailure::NotEnoughMaterial,
        TransformationFailure::NotEnoughStorage,
        TransformationFailure::OutOfShipReach,
        TransformationFailure::CanNotDeconstructShip,
    ]
}

/// The lines that tell why a task is blocked: none for a task that is not; else a heading,
/// then one line for each distinct reason, in alphabetical order.
pub open spec fn spec_format_reasons(reasons: Option<Seq<TransformationFailure>>) -> Seq<Seq<char>> {
    match reasons {
        None => Seq::empty(),
        Some(rs) => seq!["Blocked because:"@] + spec_reason_order().filter(
            |r: TransformationFailure| rs.contains(r),
        ).map_values(|r: TransformationFailure| spec_reason_line(r)),
    }
}

fn reason_line(reason: TransformationFailure) -> (result: &'static str)
    ensures
        result@ == spec_reason_line(reason),
{
    match reason {
        TransformationFailure::NotEnoughMaterial => "  Not enough resources",
        TransformationFailure::NotEnoughStorage => "  Not enough storage capacity",
        TransformationFailure::AboveWouldCollapse => "  Cells above would collapse",
        TransformationFailure::NoSturdyBase => "  Cells below can not support it",
        TransformationFailure::WouldOccludeSolarPanel => "  It would block a solar panel's sunlight",
        TransformationFailure::OccludedSolarPanel => "  A solar panel here would not get sunlight",
        TransformationFailure::OutOfShipReach => "  The spaceship network can't reach",
        TransformationFailure::CanNotDeconstructShip => "  You're not allowed to remove the spaceship",
        TransformationFailure::SplitNetwork => "  It would split a network",
    }
}

/// Whether `reasons` holds `reason`.
fn holds(reasons: &Vec<TransformationFailure>, reason: TransformationFailure) -> (result: bool)
    ensures
        result == reasons@.contains(reason),
{
    let mut k: usize = 0;
    while k < reasons.len()
        invariant
            k <= reasons@.len(),
            forall|i: int| 0 <= i < k ==> reasons@[i] != reason,
        decreases reasons@.len() - k,
    {
        if reasons[k] == reason {
            assert(reasons@[k as int] == reason);
            return true;
        }
        k = k + 1;
    }
    false
}

/// The lines that tell why a task is blocked; see `spec_format_reasons`.
pub fn format_reasons(reasons: &Option<Vec<TransformationFailure>>) -> (result: Vec<String>)
    ensures
        result@.map_values(|line: String| line@) == spec_format_reasons(
            match reasons {
                Some(rs) => Some(rs@),
                None => None,
            },
        ),
{
    match reasons {
        None => Vec::new(),
        Some(rs) => {
            let order = vec![
                TransformationFailure::OccludedSolarPanel,
                TransformationFailure::AboveWouldCollapse,
                TransformationFailure::NoSturdyBase,
                TransformationFailure::WouldOccludeSolarPanel,
                TransformationFailure::SplitNetwork,
                TransformationFailure::NotEnoughMaterial,
                TransformationFailure::NotEnoughStorage,
                TransformationFailure::OutOfShipReach,
                TransformationFailure::CanNotDeconstructShip,
            ];
            assert(order@ =~= spec_reason_order());
            let ghost f = |r: TransformationFailure| rs@.contains(r);
            let ghost g = |r: TransformationFailure| spec_reason_line(r);
            let mut message: Vec<String> = Vec::new();
            message.push(String::from_str("Blocked because:"));
            let mut k: usize = 0;
            while k < order.len()
                invariant
                    k <= order@.len(),
                    order@ == spec_reason_order(),
                    forall|r: TransformationFailure| #[trigger] f(r) == rs@.contains(r),
                    forall|r: TransformationFailure| #[trigger] g(r) == spec_reason_line(r),
                    message@.map_values(|line: String| line@) == seq!["Blocked because:"@]
                        + order@.subrange(0, k as int).filter(f).map_values(g),
                decreases order@.len() - k,
            {
                let reason = order[k];
                proof {
                    let sub = order@.subrange(0, k as int);
                    assert(order@.subrange(0, k + 1) =~= sub.push(reason));
                    sub.lemma_filter_push(reason, f);
                }
                if holds(rs, reason) {
                    let ghost before = message@;
                    let line = String::from_str(reason_line(reason));
                    assert(line@ == g(reason));
                    message.push(line);
                    proof {
                        let sub = order@.subrange(0, k as int);
                        assert(f(reason));
                        assert(sub.push(reason).filter(f) == sub.filter(f).push(reason));
                        assert(sub.filter(f).push(reason).map_values(g) =~= sub.filter(f).map_values(
                            g,
                        ).push(g(reason)));
                        assert(message@.map_values(|line: String| line@) =~= before.map_values(
                            |line: String| line@,
                        ).push(g(reason)));
                    }
                } else {
                    proof {
                        let sub = order@.subrange(0, k as int);
                        assert(!f(reason));
                        assert(sub.push(reason).filter(f) == sub.filter(f));
                    }
                }
                k = k + 1;
            }
            assert(order@.subrange(0, order@.len() as int) =~= order@);
            message
        },
    }
}

/// The lines that describe a task: what it builds on how many cells, then why it is blocked, if
/// it is; or that it moves a robot.
pub open spec fn spec_task_description(task: Task) -> Seq<Seq<char>> {
    match task {
        Task::Transform(t) => seq![
            "Task: "@ + spec_action_str(t.transformation.new_tile_type) + " ("@ + spec_decimal(
                t.to_transform@.len() as int,
            ) + ")"@,
        ] + spec_format_reasons(
            match t.blocked_because {
                Some(rs) => Some(rs@),
                None => None,
            },
        ),
        Task::Movement(_) => seq!["Task: Move"@],
    }
}

/// The lines that describe a task; see `spec_task_description`.
pub fn task_description(task: &Task) -> (result: Vec<String>)
    requires
        task matches Task::Transform(t) ==> t.to_transform.wf() && t.transformation.new_tile_type
            != TileType::Unset && t.to_transform@.len() <= i64::MAX,
    ensures
        result@.map_values(|line: String| line@) == spec_task_description(*task),
{
    match task {
        Task::Transform(t) => {
            let mut line = String::from_str("Task: ");
            line.append(to_action_str(t.transformation.new_tile_type));
            line.append(" (");
            let count = t.to_transform.len();
            let number = decimal_string(count as i64);
            line.append(number.as_str());
            line.append(")");
            let mut description: Vec<String> = Vec::new();
            description.push(line);
            let reasons = format_reasons(&t.blocked_because);
            let ghost first = description@.map_values(|l: String| l@);
            let mut k: usize = 0;
            while k < reasons.len()
                invariant
                    k <= reasons@.len(),
                    description@.map_values(|l: String| l@) == first + reasons@.subrange(0, k as int).map_values(
                        |l: String| l@,
                    ),
                decreases reasons@.len() - k,
            {
                let ghost before = description@;
                let line = reasons[k].clone();
                description.push(line);
                proof {
                    assert(reasons@.subrange(0, k + 1).map_values(|l: String| l@) =~= reasons@.subrange(
                        0,
                        k as int,
                    ).map_values(|l: String| l@).push(reasons@[k as int]@));
                    assert(description@.map_values(|l: String| l@) =~= before.map_values(|l: String| l@).push(
                        line@,
                    ));
                }
                k = k + 1;
            }
            proof {
                assert(reasons@.subrange(0, reasons@.len() as int) =~= reasons@);
            }
            description
        },
        Task::Movement(_) => {
            let mut description: Vec<String> = Vec::new();
            description.push(String::from_str("Task: Move"));
            proof {
                assert(description@.map_values(|l: String| l@) =~= seq!["Task: Move"@]);
            }
            description
        },
    }
}

/// What the task queue makes of a frame: the task whose cancel button was clicked is cancelled,
/// no robot is to be shown, and hovering or clicking a task drops the selection of cells.
pub fn task_queue_actions(gui_actions: GuiActions, cancel_clicked: Option<usize>, task_hovered_or_clicked: bool) -> (result:
    GuiActions)
    ensures
        result == (GuiActions {
            go_to_robot: None,
            cancel_task: cancel_clicked,
            cell_selection: if task_hovered_or_clicked {
                CellSelection::spec_no_selection()
            } else {
                gui_actions.cell_selection
            },
            ..gui_actions
        }),
{
    let cell_selection = if task_hovered_or_clicked {
        CellSelection::no_selection()
    } else {
        gui_actions.cell_selection
    };
    GuiActions { go_to_robot: None, cancel_task: cancel_clicked, cell_selection, ..gui_actions }
}

/// Clicking a task highlights the cells it transforms; a movement highlights nothing new.
pub fn highlight_task(drawing: &mut DrawingState, task: &Task)
    requires
        old(drawing).wf(),
        task matches Task::Transform(t) ==> t.to_transform.wf(),
    ensures
        final(drawing).wf(),
        task matches Task::Transform(t) ==> final(drawing).spec_cell_index_set().spec_merged() == t.to_transform@,
        task is Movement ==> *final(drawing) == *old(drawing),
        final(drawing).min_cell == old(drawing).min_cell,
        final(drawing).max_cell == old(drawing).max_cell,
{
    match task {
        Task::Transform(t) => {
            drawing.set_highlighted_cells(t.to_transform.duplicate());
        },
        Task::Movement(_) => {},
    }
}

} // verus!
