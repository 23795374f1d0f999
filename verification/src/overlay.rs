//! The text that reports on the running demo.

use crate::scene::{DemoScene, SimulationBackend, DEMO_COUNT};
use vstd::prelude::*;
use vstd::string::StringExecFns;

verus! {

/// The digit of a number below ten.
pub open spec fn digit(value: nat) -> char {
    if value == 0 {
        '0'
    } else if value == 1 {
        '1'
    } else if value == 2 {
        '2'
    } else if value == 3 {
        '3'
    } else if value == 4 {
        '4'
    } else if value == 5 {
        '5'
    } else if value == 6 {
        '6'
    } else if value == 7 {
        '7'
    } else if value == 8 {
        '8'
    } else {
        '9'
    }
}

/// A number in decimal digits, without leading zeros.
pub open spec fn decimal(value: nat) -> Seq<char>
    decreases value,
{
    if value < 10 {
        seq![digit(value)]
    } else {
        decimal(value / 10).push(digit(value % 10))
    }
}

/// The number that a text of decimal digits stands for.
pub open spec fn reads_as(text: Seq<char>) -> int
    decreases text.len(),
{
    if text.len() == 0 {
        0
    } else {
        10 * reads_as(text.drop_last()) + (text.last() as int - '0' as int)
    }
}

/// A number in decimal digits reads as that number, is made of digits alone, and starts with
/// a zero only where it is zero.
pub proof fn lemma_decimal_reads_back(value: nat)
    ensures
        reads_as(decimal(value)) == value,
        decimal(value).len() > 0,
        forall|i: int|
            0 <= i < decimal(value).len() ==> '0' <= (#[trigger] decimal(value)[i]) <= '9',
        decimal(value)[0] == '0' ==> value == 0,
    decreases value,
{
    let text = decimal(value);
    if value < 10 {
        assert(text.drop_last() =~= Seq::<char>::empty());
        assert(reads_as(Seq::<char>::empty()) == 0);
    } else {
        lemma_decimal_reads_back(value / 10);
        assert(text.drop_last() =~= decimal(value / 10));
    }
}

fn append_digit(text: &mut String, value: usize)
    requires
        value < 10,
    ensures
        final(text)@ == old(text)@.push(digit(value as nat)),
{
    proof {
        reveal_strlit("0");
        reveal_strlit("1");
        reveal_strlit("2");
        reveal_strlit("3");
        reveal_strlit("4");
        reveal_strlit("5");
        reveal_strlit("6");
        reveal_strlit("7");
        reveal_strlit("8");
        reveal_strlit("9");
    }
    let one_digit = match value {
        0 => "0",
        1 => "1",
        2 => "2",
        3 => "3",
        4 => "4",
        5 => "5",
        6 => "6",
        7 => "7",
        8 => "8",
        _ => "9",
    };
    assert(one_digit@ =~= seq![digit(value as nat)]);
    text.append(one_digit);
}

/// Adds a number to a text.
pub fn append_decimal(text: &mut String, value: usize)
    ensures
        final(text)@ == old(text)@ + decimal(value as nat),
    decreases value,
{
    if value >= 10 {
        append_decimal(text, value / 10);
    }
    append_digit(text, value % 10);
}

/// What the overlay says of the backend.
pub open spec fn backend_words(backend: SimulationBackend, status: Seq<char>) -> Seq<char> {
    match backend {
        SimulationBackend::Project => "PROJECT"@,
        SimulationBackend::Physx => "PHYSX "@ + status,
    }
}

pub fn backend_text(backend: SimulationBackend, status: &str) -> (result: String)
    ensures
        result@ == backend_words(backend, status@),
{
    match backend {
        SimulationBackend::Project => "PROJECT".to_owned(),
        SimulationBackend::Physx => {
            let mut text = "PHYSX ".to_owned();
            text.append(status);
            text
        },
    }
}

/// What the overlay says of the key that changes the backend.
pub open spec fn hint_words(physx_available: bool) -> Seq<char> {
    if physx_available {
        "[B] Backend"@
    } else {
        "PhysX disabled"@
    }
}

pub fn backend_hint(physx_available: bool) -> (result: &'static str)
    ensures
        result@ == hint_words(physx_available),
{
    if physx_available {
        "[B] Backend"
    } else {
        "PhysX disabled"
    }
}

/// What the overlay reports on. Times and rates come as text that is already rounded.
pub struct OverlayReport {
    pub scene: DemoScene,
    pub backend: SimulationBackend,
    pub engine_status: String,
    pub grid_size: usize,
    pub fps: String,
    pub frame_time: String,
    pub step_time: String,
    pub fixed_hz: String,
    pub body_count: usize,
    pub joint_count: usize,
    pub physx_available: bool,
}

/// The number of a demo.
pub open spec fn scene_number(scene: DemoScene) -> nat {
    match scene {
        DemoScene::JointGrid => 1,
        DemoScene::CylinderDrape => 2,
        DemoScene::FallingBalls => 3,
    }
}

/// The name of a demo.
pub open spec fn scene_words(scene: DemoScene) -> Seq<char> {
    match scene {
        DemoScene::JointGrid => "Joint grid"@,
        DemoScene::CylinderDrape => "Cylinder drape"@,
        DemoScene::FallingBalls => "Falling balls"@,
    }
}

/// The lines of the overlay.
pub open spec fn overlay_words(report: OverlayReport) -> Seq<char> {
    "SCENE "@ + decimal(scene_number(report.scene)) + "/"@ + decimal(DEMO_COUNT as nat) + "  "@
        + scene_words(report.scene) + "\nBACKEND  "@ + backend_words(
        report.backend,
        report.engine_status@,
    ) + "\nGRID     "@ + decimal(report.grid_size as nat) + "x"@ + decimal(
        report.grid_size as nat,
    ) + "\nFPS      "@ + report.fps@ + "\nFRAME    "@ + report.frame_time@ + " ms\nSIM STEP "@
        + report.step_time@ + " ms\nFIXED    "@ + report.fixed_hz@ + " Hz\n"@ + decimal(
        report.body_count as nat,
    ) + " bodies | "@ + decimal(report.joint_count as nat)
        + " joints\n[1] Grid  [2] Cylinder  [3] Balls  "@ + hint_words(report.physx_available)
        + "  [R] Reset"@
}

/// The text of the overlay.
pub fn overlay_text(report: &OverlayReport) -> (result: String)
    ensures
        result@ == overlay_words(*report),
{
    let mut text = "SCENE ".to_owned();
    append_decimal(&mut text, report.scene.number());
    text.append("/");
    append_decimal(&mut text, DEMO_COUNT);
    text.append("  ");
    text.append(report.scene.title());
    text.append("\nBACKEND  ");
    let backend = backend_text(report.backend, report.engine_status.as_str());
    text.append(backend.as_str());
    text.append("\nGRID     ");
    append_decimal(&mut text, report.grid_size);
    text.append("x");
    append_decimal(&mut text, report.grid_size);
    text.append("\nFPS      ");
    text.append(report.fps.as_str());
    text.append("\nFRAME    ");
    text.append(report.frame_time.as_str());
    text.append(" ms\nSIM STEP ");
    text.append(report.step_time.as_str());
    text.append(" ms\nFIXED    ");
    text.append(report.fixed_hz.as_str());
    text.append(" Hz\n");
    append_decimal(&mut text, report.body_count);
    text.append(" bodies | ");
    append_decimal(&mut text, report.joint_count);
    text.append(" joints\n[1] Grid  [2] Cylinder  [3] Balls  ");
    text.append(backend_hint(report.physx_available));
    text.append("  [R] Reset");
    text
}

/// Whether a text holds a part.
#[verifier::opaque]
pub open spec fn says(text: Seq<char>, part: Seq<char>) -> bool {
    exists|i: int|
        0 <= i <= text.len() - part.len() && #[trigger] text.subrange(i, i + part.len()) == part
}

proof fn lemma_ends_with(text: Seq<char>, part: Seq<char>)
    ensures
        says(text + part, part),
{
    reveal(says);
    let start = text.len() as int;
    assert((text + part).subrange(start, start + part.len()) =~= part);
}

/// What a text says it still says when it goes on.
proof fn lemma_goes_on(text: Seq<char>, more: Seq<char>)
    ensures
        forall|part: Seq<char>| #[trigger] says(text, part) ==> says(text + more, part),
{
    reveal(says);
    assert forall|part: Seq<char>| #[trigger] says(text, part) implies says(text + more, part) by {
        let i = choose|i: int|
            0 <= i <= text.len() - part.len() && #[trigger] text.subrange(i, i + part.len())
                == part;
        assert((text + more).subrange(i, i + part.len()) =~= part);
    }
}

proof fn lemma_join(text: Seq<char>, first: Seq<char>, second: Seq<char>)
    ensures
        text + (first + second) == text + first + second,
{
    assert(text + (first + second) =~= text + first + second);
}

/// The overlay says which demo runs and on which backend, how wide its net is, how many bodies
/// and joints it has, how fast frames and steps come and how long they take, and which keys
/// there are, whatever runs.
pub proof fn lemma_overlay_says(report: OverlayReport)
    ensures
        says(
            overlay_words(report),
            "SCENE "@ + decimal(
                match report.scene {
                    DemoScene::JointGrid => 1nat,
                    DemoScene::CylinderDrape => 2nat,
                    DemoScene::FallingBalls => 3nat,
                },
            ) + "/"@ + decimal(3) + "  "@ + (match report.scene {
                DemoScene::JointGrid => "Joint grid"@,
                DemoScene::CylinderDrape => "Cylinder drape"@,
                DemoScene::FallingBalls => "Falling balls"@,
            }),
        ),
        says(
            overlay_words(report),
            "\nBACKEND  "@ + (match report.backend {
                SimulationBackend::Project => "PROJECT"@,
                SimulationBackend::Physx => "PHYSX "@ + report.engine_status@,
            }),
        ),
        says(
            overlay_words(report),
            "\nGRID     "@ + decimal(report.grid_size as nat) + "x"@ + decimal(
                report.grid_size as nat,
            ),
        ),
        says(
            overlay_words(report),
            "\nFPS      "@ + report.fps@,
        ),
        says(
            overlay_words(report),
            "\nFRAME    "@ + report.frame_time@,
        ),
        says(
            overlay_words(report),
            " ms\nSIM STEP "@ + report.step_time@,
        ),
        says(
            overlay_words(report),
            " ms\nFIXED    "@ + report.fixed_hz@,
        ),
        says(
            overlay_words(report),
            decimal(report.body_count as nat) + " bodies | "@ + decimal(
                report.joint_count as nat,
            ),
        ),
        says(
            overlay_words(report),
            (if report.physx_available {
                "[B] Backend"@
            } else {
                "PhysX disabled"@
            }),
        ),
{
    let number = decimal(scene_number(report.scene));
    let demos = decimal(DEMO_COUNT as nat);
    let name = scene_words(report.scene);
    let backend = backend_words(report.backend, report.engine_status@);
    let grid = decimal(report.grid_size as nat);
    let bodies = decimal(report.body_count as nat);
    let joints = decimal(report.joint_count as nat);
    let hint = hint_words(report.physx_available);
    let none = Seq::<char>::empty();
    let t0 = "SCENE "@;
    let t1 = t0 + number;
    let t2 = t1 + "/"@;
    let t3 = t2 + demos;
    let t4 = t3 + "  "@;
    let t5 = t4 + name;
    let t6 = t5 + "\nBACKEND  "@;
    let t7 = t6 + backend;
    let t8 = t7 + "\nGRID     "@;
    let t9 = t8 + grid;
    let t10 = t9 + "x"@;
    let t11 = t10 + grid;
    let t12 = t11 + "\nFPS      "@;
    let t13 = t12 + report.fps@;
    let t14 = t13 + "\nFRAME    "@;
    let t15 = t14 + report.frame_time@;
    let t16 = t15 + " ms\nSIM STEP "@;
    let t17 = t16 + report.step_time@;
    let t18 = t17 + " ms\nFIXED    "@;
    let t19 = t18 + report.fixed_hz@;
    let t20 = t19 + " Hz\n"@;
    let t21 = t20 + bodies;
    let t22 = t21 + " bodies | "@;
    let t23 = t22 + joints;
    let t24 = t23 + " joints\n[1] Grid  [2] Cylinder  [3] Balls  "@;
    let t25 = t24 + hint;
    let t26 = t25 + "  [R] Reset"@;
    assert(t26 == overlay_words(report));
    assert(none + t0 =~= t0);
    lemma_ends_with(none, "SCENE "@ + number + "/"@ + demos + "  "@ + name);
    lemma_join(none, "SCENE "@, number);
    lemma_join(none, "SCENE "@ + number, "/"@);
    lemma_join(none, "SCENE "@ + number + "/"@, demos);
    lemma_join(none, "SCENE "@ + number + "/"@ + demos, "  "@);
    lemma_join(none, "SCENE "@ + number + "/"@ + demos + "  "@, name);
    lemma_goes_on(t5, "\nBACKEND  "@);
    lemma_goes_on(t6, backend);
    lemma_ends_with(t5, "\nBACKEND  "@ + backend);
    lemma_join(t5, "\nBACKEND  "@, backend);
    lemma_goes_on(t7, "\nGRID     "@);
    lemma_goes_on(t8, grid);
    lemma_goes_on(t9, "x"@);
    lemma_goes_on(t10, grid);
    lemma_ends_with(t7, "\nGRID     "@ + grid + "x"@ + grid);
    lemma_join(t7, "\nGRID     "@, grid);
    lemma_join(t7, "\nGRID     "@ + grid, "x"@);
    lemma_join(t7, "\nGRID     "@ + grid + "x"@, grid);
    lemma_goes_on(t11, "\nFPS      "@);
    lemma_goes_on(t12, report.fps@);
    lemma_ends_with(t11, "\nFPS      "@ + report.fps@);
    lemma_join(t11, "\nFPS      "@, report.fps@);
    lemma_goes_on(t13, "\nFRAME    "@);
    lemma_goes_on(t14, report.frame_time@);
    lemma_ends_with(t13, "\nFRAME    "@ + report.frame_time@);
    lemma_join(t13, "\nFRAME    "@, report.frame_time@);
    lemma_goes_on(t15, " ms\nSIM STEP "@);
    lemma_goes_on(t16, report.step_time@);
    lemma_ends_with(t15, " ms\nSIM STEP "@ + report.step_time@);
    lemma_join(t15, " ms\nSIM STEP "@, report.step_time@);
    lemma_goes_on(t17, " ms\nFIXED    "@);
    lemma_goes_on(t18, report.fixed_hz@);
    lemma_ends_with(t17, " ms\nFIXED    "@ + report.fixed_hz@);
    lemma_join(t17, " ms\nFIXED    "@, report.fixed_hz@);
    lemma_goes_on(t19, " Hz\n"@);
    lemma_goes_on(t20, bodies);
    lemma_goes_on(t21, " bodies | "@);
    lemma_goes_on(t22, joints);
    lemma_ends_with(t20, bodies + " bodies | "@ + joints);
    lemma_join(t20, bodies, " bodies | "@);
    lemma_join(t20, bodies + " bodies | "@, joints);
    lemma_goes_on(t23, " joints\n[1] Grid  [2] Cylinder  [3] Balls  "@);
    lemma_goes_on(t24, hint);
    lemma_ends_with(t24, hint);
    lemma_goes_on(t25, "  [R] Reset"@);
}

} // verus!
