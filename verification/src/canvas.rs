//! Decisions of the annotation editor's canvas: which shape is selected,
//! which interaction a press starts, what a release or a click does, and
//! which shape a delete removes. The pointer geometry (hit testing, moving
//! points) is done by the caller, which hands in the hit target it found.
use vstd::prelude::*;

verus! {

/// What lies under the pointer.
#[derive(Debug, Clone, Copy, PartialEq, Eq, Structural)]
pub enum HitTarget {
    /// Empty canvas.
    Empty,
    /// Inside the body of a shape.
    Body(usize),
    /// On a corner handle of the selected shape.
    Corner { shape: usize, corner: u8 },
    /// On the rotation handle of the selected shape.
    Rotate { shape: usize },
}

/// The kind of interaction a press starts.
#[derive(Debug, Clone, Copy, PartialEq, Eq, Structural)]
pub enum DragMode {
    /// Move every point of the shape.
    Translate,
    /// Move one corner of the shape.
    Resize { corner: u8 },
    /// Rotate the shape about its centre.
    Rotate,
    /// Draw a new box.
    Draw,
}

/// A selection names an existing shape (or nothing).
pub open spec fn selection_ok(sel: Option<usize>, n: nat) -> bool {
    sel matches Some(i) ==> i < n
}

/// A hit target names an existing shape.
pub open spec fn hit_ok(hit: HitTarget, n: nat) -> bool {
    match hit {
        HitTarget::Empty => true,
        HitTarget::Body(i) => i < n,
        HitTarget::Corner { shape, .. } => shape < n,
        HitTarget::Rotate { shape } => shape < n,
    }
}

/// What a press on the canvas decides.
pub struct PressOutcome {
    /// The selection afterwards.
    pub selected: Option<usize>,
    /// The shape whose label and type go into the edit fields, if any.
    pub load_fields: Option<usize>,
    /// The interaction that starts.
    pub mode: DragMode,
    /// The shape whose points the interaction starts from (none for a new
    /// box).
    pub anchor: Option<usize>,
}

pub open spec fn press_spec(selected: Option<usize>, hit: HitTarget) -> PressOutcome {
    match hit {
        HitTarget::Body(i) => PressOutcome {
            selected: Some(i),
            load_fields: Some(i),
            mode: DragMode::Translate,
            anchor: Some(i),
        },
        HitTarget::Corner { shape, corner } => PressOutcome {
            selected: Some(shape),
            load_fields: None,
            mode: DragMode::Resize { corner },
            anchor: Some(shape),
        },
        HitTarget::Rotate { shape } => PressOutcome {
            selected: selected,
            load_fields: None,
            mode: DragMode::Rotate,
            anchor: Some(shape),
        },
        HitTarget::Empty => PressOutcome {
            selected: None,
            load_fields: None,
            mode: DragMode::Draw,
            anchor: None,
        },
    }
}

/// A press selects the shape whose body or corner was hit and starts moving
/// or resizing it, starts rotating on the rotation handle (keeping the
/// selection), and on empty canvas clears the selection and starts drawing a
/// new box.
pub fn on_press(selected: Option<usize>, hit: HitTarget) -> (r: PressOutcome)
    ensures
        r == press_spec(selected, hit),
        forall|n: nat|
            hit_ok(hit, n) && selection_ok(selected, n) ==> #[trigger] selection_ok(r.selected, n)
                && (r.anchor matches Some(a) ==> a < n) && (r.load_fields matches Some(f) ==> f
                < n),
{
    match hit {
        HitTarget::Body(i) => PressOutcome {
            selected: Some(i),
            load_fields: Some(i),
            mode: DragMode::Translate,
            anchor: Some(i),
        },
        HitTarget::Corner { shape, corner } => PressOutcome {
            selected: Some(shape),
            load_fields: None,
            mode: DragMode::Resize { corner },
            anchor: Some(shape),
        },
        HitTarget::Rotate { shape } => PressOutcome {
            selected: selected,
            load_fields: None,
            mode: DragMode::Rotate,
            anchor: Some(shape),
        },
        HitTarget::Empty => PressOutcome {
            selected: None,
            load_fields: None,
            mode: DragMode::Draw,
            anchor: None,
        },
    }
}

/// The shape a drag in progress changes: the selected one, when it exists.
pub fn drag_target(selected: Option<usize>, n_shapes: usize) -> (r: Option<usize>)
    ensures
        r == match selected {
            Some(i) => if i < n_shapes {
                Some(i)
            } else {
                None
            },
            None => None,
        },
        r matches Some(i) ==> i < n_shapes,
{
    match selected {
        Some(i) => if i < n_shapes {
            Some(i)
        } else {
            None
        },
        None => None,
    }
}

/// What releasing the pointer decides: the selection afterwards and whether
/// a new box is appended.
pub struct ReleaseOutcome {
    pub selected: Option<usize>,
    pub add_box: bool,
}

/// Releasing a box drawing that is large enough appends the box and selects
/// it (it becomes shape `n_shapes`); any other release keeps the selection.
pub fn on_release(selected: Option<usize>, mode: Option<DragMode>, large_enough: bool, n_shapes: usize) -> (r: ReleaseOutcome)
    requires
        n_shapes < usize::MAX,
    ensures
        r.add_box == (mode == Some(DragMode::Draw) && large_enough),
        r.selected == if r.add_box {
            Some(n_shapes)
        } else {
            selected
        },
        selection_ok(selected, n_shapes as nat) ==> selection_ok(
            r.selected,
            (n_shapes + if r.add_box {
                1int
            } else {
                0int
            }) as nat,
        ),
{
    let drawing: bool = match mode {
        Some(DragMode::Draw) => true,
        _ => false,
    };
    if drawing && large_enough {
        ReleaseOutcome { selected: Some(n_shapes), add_box: true }
    } else {
        ReleaseOutcome { selected, add_box: false }
    }
}

/// What a click (a press without a drag) decides.
pub struct ClickOutcome {
    pub selected: Option<usize>,
    pub load_fields: Option<usize>,
}

/// Clicking a shape's body selects it; clicking empty canvas clears the
/// selection; clicking a handle changes nothing.
pub fn on_click(selected: Option<usize>, hit: HitTarget) -> (r: ClickOutcome)
    ensures
        r.selected == match hit {
            HitTarget::Body(i) => Some(i),
            HitTarget::Empty => None,
            _ => selected,
        },
        r.load_fields == match hit {
            HitTarget::Body(i) => Some(i),
            _ => None,
        },
        forall|n: nat|
            hit_ok(hit, n) && selection_ok(selected, n) ==> #[trigger] selection_ok(r.selected, n),
{
    match hit {
        HitTarget::Body(i) => ClickOutcome { selected: Some(i), load_fields: Some(i) },
        HitTarget::Empty => ClickOutcome { selected: None, load_fields: None },
        _ => ClickOutcome { selected, load_fields: None },
    }
}

/// Delete removes the selected shape when it exists; the selection is
/// cleared either way. Returns the index to remove.
pub fn on_delete(selected: Option<usize>, n_shapes: usize) -> (r: Option<usize>)
    ensures
        r == match selected {
            Some(i) => if i < n_shapes {
                Some(i)
            } else {
                None
            },
            None => None,
        },
{
    drag_target(selected, n_shapes)
}

} // verus!
