//! The demos, and what the keys and buttons make of them.

use crate::body::BodyKind;
use crate::scalar::{half, Scalar};
use vstd::prelude::*;

verus! {

/// How many demos there are.
pub const DEMO_COUNT: usize = 3;

/// The grid sizes that have a button.
pub fn grid_size_options() -> (result: Vec<usize>)
    ensures
        result@ == seq![10usize, 25, 50, 100],
{
    let sizes: Vec<usize> = vec![10, 25, 50, 100];
    sizes
}

/// The step rates that have a button.
pub fn fixed_hz_options<S: Scalar>() -> (result: Vec<S>)
    ensures
        result@ == seq![
            S::fraction(30, 1),
            S::fraction(60, 1),
            S::fraction(120, 1),
            S::fraction(200, 1),
            S::fraction(500, 1),
        ],
{
    let rates: Vec<S> = vec![
        S::from_fraction(30, 1),
        S::from_fraction(60, 1),
        S::from_fraction(120, 1),
        S::from_fraction(200, 1),
        S::from_fraction(500, 1),
    ];
    assert(rates@ =~= seq![
        S::fraction(30, 1),
        S::fraction(60, 1),
        S::fraction(120, 1),
        S::fraction(200, 1),
        S::fraction(500, 1),
    ]);
    rates
}

/// A demo.
#[derive(Clone, Copy, PartialEq, Eq, Structural, Debug)]
pub enum DemoScene {
    /// A net that hangs from one edge.
    JointGrid,
    /// A net that hangs from one edge and drapes over a cylinder.
    CylinderDrape,
    /// A level net, pinned at its corners, that catches falling balls.
    FallingBalls,
}

impl DemoScene {
    /// The number of the demo, which is also the key that starts it.
    pub fn number(self) -> (result: usize)
        ensures
            result == (match self {
                DemoScene::JointGrid => 1usize,
                DemoScene::CylinderDrape => 2,
                DemoScene::FallingBalls => 3,
            }),
            1 <= result <= DEMO_COUNT,
    {
        match self {
            DemoScene::JointGrid => 1,
            DemoScene::CylinderDrape => 2,
            DemoScene::FallingBalls => 3,
        }
    }

    /// The name of the demo.
    pub fn title(self) -> (result: &'static str)
        ensures
            result@ == (match self {
                DemoScene::JointGrid => "Joint grid"@,
                DemoScene::CylinderDrape => "Cylinder drape"@,
                DemoScene::FallingBalls => "Falling balls"@,
            }),
    {
        match self {
            DemoScene::JointGrid => "Joint grid",
            DemoScene::CylinderDrape => "Cylinder drape",
            DemoScene::FallingBalls => "Falling balls",
        }
    }
}

/// What runs a demo.
#[derive(Clone, Copy, PartialEq, Eq, Structural, Debug)]
pub enum SimulationBackend {
    /// This library's solver.
    Project,
    /// PhysX.
    Physx,
}

impl SimulationBackend {
    /// The other of the two; without PhysX there is only this library's solver.
    #[verifier::allow_in_spec]
    pub fn toggled(self, physx_available: bool) -> (result: Self)
        returns
            (if !physx_available {
                SimulationBackend::Project
            } else {
                match self {
                    SimulationBackend::Project => SimulationBackend::Physx,
                    SimulationBackend::Physx => SimulationBackend::Project,
                }
            }),
    {
        if !physx_available {
            return SimulationBackend::Project;
        }
        match self {
            SimulationBackend::Project => SimulationBackend::Physx,
            SimulationBackend::Physx => SimulationBackend::Project,
        }
    }
}

/// Where PhysX is there, toggling twice changes nothing; where it is not, toggling gives the
/// library's solver.
pub proof fn lemma_toggle_twice(backend: SimulationBackend)
    ensures
        backend.toggled(true).toggled(true) == backend,
        backend.toggled(true) != backend,
        backend.toggled(false) != SimulationBackend::Physx,
{
}

/// The demo that runs.
#[derive(Clone, Copy, PartialEq, Eq, Structural, Debug)]
pub struct ActiveDemo {
    pub scene: DemoScene,
    pub backend: SimulationBackend,
    pub grid_size: usize,
}

/// The keys that were pressed since the last frame.
#[derive(Clone, Copy, PartialEq, Eq, Structural, Debug)]
pub struct DemoKeys {
    pub digit_1: bool,
    pub digit_2: bool,
    pub digit_3: bool,
    pub backend: bool,
    pub reset: bool,
}

/// The demo to build anew, if any. Keys go before buttons, and the earlier of two keys goes
/// before the later; the button of the present grid size does nothing.
pub open spec fn switch_target(
    active: ActiveDemo,
    keys: DemoKeys,
    selected_grid_size: Option<usize>,
    physx_available: bool,
) -> Option<ActiveDemo> {
    if keys.digit_1 {
        Some(ActiveDemo { scene: DemoScene::JointGrid, ..active })
    } else if keys.digit_2 {
        Some(ActiveDemo { scene: DemoScene::CylinderDrape, ..active })
    } else if keys.digit_3 {
        Some(ActiveDemo { scene: DemoScene::FallingBalls, ..active })
    } else if keys.backend && physx_available {
        Some(ActiveDemo { backend: active.backend.toggled(physx_available), ..active })
    } else if keys.reset {
        Some(active)
    } else {
        match selected_grid_size {
            Some(grid_size) if grid_size != active.grid_size => Some(
                ActiveDemo { grid_size, ..active },
            ),
            _ => None,
        }
    }
}

pub fn switch_demo_scene(
    active: ActiveDemo,
    keys: DemoKeys,
    selected_grid_size: Option<usize>,
    physx_available: bool,
) -> (target: Option<ActiveDemo>)
    ensures
        target == switch_target(active, keys, selected_grid_size, physx_available),
{
    if keys.digit_1 {
        Some(ActiveDemo { scene: DemoScene::JointGrid, ..active })
    } else if keys.digit_2 {
        Some(ActiveDemo { scene: DemoScene::CylinderDrape, ..active })
    } else if keys.digit_3 {
        Some(ActiveDemo { scene: DemoScene::FallingBalls, ..active })
    } else if keys.backend && physx_available {
        Some(ActiveDemo { backend: active.backend.toggled(physx_available), ..active })
    } else if keys.reset {
        Some(active)
    } else if let Some(grid_size) = selected_grid_size {
        if grid_size == active.grid_size {
            return None;
        }
        Some(ActiveDemo { grid_size, ..active })
    } else {
        None
    }
}

/// Only a grid-size button changes the grid size, only a number key the scene, and only the
/// backend key the backend.
pub proof fn lemma_switch_changes_one(
    active: ActiveDemo,
    keys: DemoKeys,
    selected_grid_size: Option<usize>,
    physx_available: bool,
)
    ensures
        switch_target(active, keys, selected_grid_size, physx_available) matches Some(target) ==> {
            &&& target.scene != active.scene ==> target.backend == active.backend
                && target.grid_size == active.grid_size
            &&& target.backend != active.backend ==> target.scene == active.scene
                && target.grid_size == active.grid_size
            &&& target.grid_size != active.grid_size ==> target.scene == active.scene
                && target.backend == active.backend && selected_grid_size == Some(target.grid_size)
        },
{
}

/// A number key always starts its own demo, the one that runs too; without one, the backend
/// key starts the other backend where there is one, the reset key what runs, and a button of
/// another grid size that size. Nothing else starts anything.
pub proof fn lemma_switch_starts(
    active: ActiveDemo,
    keys: DemoKeys,
    selected_grid_size: Option<usize>,
    physx_available: bool,
)
    ensures
        ({
            let target = switch_target(active, keys, selected_grid_size, physx_available);
            let numbered = keys.digit_1 || keys.digit_2 || keys.digit_3;
            let switched = keys.backend && physx_available;
            let resized = selected_grid_size is Some && selected_grid_size != Some(
                active.grid_size,
            );
            &&& target is Some <==> numbered || switched || keys.reset || resized
            &&& numbered ==> target->0.backend == active.backend && target->0.grid_size
                == active.grid_size
            &&& numbered ==> match target->0.scene {
                DemoScene::JointGrid => keys.digit_1,
                DemoScene::CylinderDrape => keys.digit_2 && !keys.digit_1,
                DemoScene::FallingBalls => keys.digit_3 && !keys.digit_1 && !keys.digit_2,
            }
            &&& target is Some && !numbered ==> target->0.scene == active.scene
            &&& !numbered && switched ==> target->0.backend != active.backend
                && target->0.grid_size == active.grid_size
            &&& !numbered && !switched && keys.reset ==> target == Some(active)
            &&& !numbered && !switched && !keys.reset && resized ==> target->0.backend
                == active.backend && Some(target->0.grid_size) == selected_grid_size
        }),
{
}

/// The grid size of the first pressed button, if any.
pub fn first_pressed_size(buttons: &[(bool, usize)]) -> (result: Option<usize>)
    ensures
        match result {
            Some(size) => exists|i: int|
                0 <= i < buttons@.len() && (#[trigger] buttons@[i]) == (true, size) && forall|j: int|
                    0 <= j < i ==> !(#[trigger] buttons@[j]).0,
            None => forall|i: int| 0 <= i < buttons@.len() ==> !(#[trigger] buttons@[i]).0,
        },
{
    let mut index: usize = 0;
    while index < buttons.len()
        invariant
            index <= buttons@.len(),
            forall|j: int| 0 <= j < index ==> !(#[trigger] buttons@[j]).0,
        decreases buttons@.len() - index,
    {
        let button: (bool, usize) = buttons[index];
        if button.0 {
            assert(buttons@[index as int] == (true, button.1));
            return Some(button.1);
        }
        index = index + 1;
    }
    None
}

/// The last pressed of a row of buttons, if any: where several are pressed in one frame, the
/// last takes effect.
pub fn last_pressed(buttons: &[bool]) -> (result: Option<usize>)
    ensures
        match result {
            Some(last) => last < buttons@.len() && buttons@[last as int] && forall|j: int|
                last < j < buttons@.len() ==> !(#[trigger] buttons@[j]),
            None => forall|i: int| 0 <= i < buttons@.len() ==> !(#[trigger] buttons@[i]),
        },
{
    let mut index: usize = buttons.len();
    while index > 0
        invariant
            index <= buttons@.len(),
            forall|j: int| index <= j < buttons@.len() ==> !(#[trigger] buttons@[j]),
        decreases index,
    {
        index = index - 1;
        if buttons[index] {
            return Some(index);
        }
    }
    None
}

/// What the pointer does with a button.
#[derive(Clone, Copy, PartialEq, Eq, Structural, Debug)]
pub enum ButtonState {
    Pressed,
    Hovered,
    Idle,
}

/// How a button looks.
#[derive(Clone, Copy, PartialEq, Eq, Structural, Debug)]
pub enum ButtonStyle {
    Pressed,
    Hovered,
    Selected,
    Plain,
}

/// How a button looks: the pointer goes before whether its choice is the present one.
pub fn button_style(state: ButtonState, selected: bool) -> (result: ButtonStyle)
    ensures
        result == (match state {
            ButtonState::Pressed => ButtonStyle::Pressed,
            ButtonState::Hovered => ButtonStyle::Hovered,
            ButtonState::Idle => if selected {
                ButtonStyle::Selected
            } else {
                ButtonStyle::Plain
            },
        }),
{
    match state {
        ButtonState::Pressed => ButtonStyle::Pressed,
        ButtonState::Hovered => ButtonStyle::Hovered,
        ButtonState::Idle => {
            if selected {
                ButtonStyle::Selected
            } else {
                ButtonStyle::Plain
            }
        },
    }
}

/// Whether the step rate of a button is the present one.
pub fn rate_selected<S: Scalar>(button_hz: S, current_hz: S) -> (result: bool)
    ensures
        result == button_hz.minus(current_hz).magnitude().below(half()),
{
    button_hz.sub(current_hz).abs().lt(half())
}

/// The mesh that shows a body.
#[derive(Clone, Copy, PartialEq, Eq, Structural, Debug)]
pub enum BodyMesh {
    Hub,
    Rod,
    Ball,
}

/// The material that shows a body.
#[derive(Clone, Copy, PartialEq, Eq, Structural, Debug)]
pub enum BodyMaterial {
    Hub,
    Rod,
    Fixed,
    Ball,
}

/// The mesh and the material that show a body.
pub fn body_appearance(kind: BodyKind) -> (result: (BodyMesh, BodyMaterial))
    ensures
        result == (match kind {
            BodyKind::Hub { fixed } => (
                BodyMesh::Hub,
                if fixed {
                    BodyMaterial::Fixed
                } else {
                    BodyMaterial::Hub
                },
            ),
            BodyKind::Rod => (BodyMesh::Rod, BodyMaterial::Rod),
            BodyKind::Ball => (BodyMesh::Ball, BodyMaterial::Ball),
        }),
{
    match kind {
        BodyKind::Hub { fixed } => {
            if fixed {
                (BodyMesh::Hub, BodyMaterial::Fixed)
            } else {
                (BodyMesh::Hub, BodyMaterial::Hub)
            }
        },
        BodyKind::Rod => (BodyMesh::Rod, BodyMaterial::Rod),
        BodyKind::Ball => (BodyMesh::Ball, BodyMaterial::Ball),
    }
}

} // verus!
