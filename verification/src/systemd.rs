//! The systemd unit that applies the block at boot: its content, its state and
//! the steps that change it.

use vstd::prelude::*;

use crate::text::{join, joined, texts, trim, trimmed};

verus! {

pub const SERVICE_NAME: &'static str = "stalzone-server-blocker.service";

pub const UNIT_PATH: &'static str = "/etc/systemd/system/stalzone-server-blocker.service";

/// The state of the unit in words.
pub open spec fn label_text(installed: bool, enabled: bool) -> Seq<char> {
    if !installed {
        "не установлен"@
    } else if enabled {
        "включён"@
    } else {
        "установлен, выкл."@
    }
}

/// The state of the unit in words.
pub fn status_label(installed: bool, enabled: bool) -> (r: String)
    ensures
        r@ == label_text(installed, enabled),
{
    if !installed {
        return "не установлен".to_owned();
    }
    if enabled {
        "включён".to_owned()
    } else {
        "установлен, выкл.".to_owned()
    }
}

/// One step of a change to the unit. Steps are taken in order up to the first
/// that stops the change.
#[derive(Debug, PartialEq, Eq)]
pub enum UnitStep {
    /// Fail unless running as root.
    EnsureRoot,
    /// Write the unit file.
    WriteUnit { content: String },
    /// Run `systemctl`; where it is not required, its failure is passed over.
    Systemctl { args: Vec<String>, required: bool },
}

#[verifier::ext_equal]
pub enum UnitStepView {
    EnsureRoot,
    WriteUnit { content: Seq<char> },
    Systemctl { args: Seq<Seq<char>>, required: bool },
}

impl View for UnitStep {
    type V = UnitStepView;

    open spec fn view(&self) -> UnitStepView {
        match self {
            UnitStep::EnsureRoot => UnitStepView::EnsureRoot,
            UnitStep::WriteUnit { content } => UnitStepView::WriteUnit { content: content@ },
            UnitStep::Systemctl { args, required } => UnitStepView::Systemctl {
                args: texts(args@),
                required: *required,
            },
        }
    }
}

/// The views of a sequence of steps.
pub open spec fn step_views(steps: Seq<UnitStep>) -> Seq<UnitStepView> {
    Seq::new(steps.len(), |i: int| steps[i]@)
}

/// Whether a step that failed ends the change.
pub open spec fn stops_on_failure(step: UnitStepView) -> bool {
    match step {
        UnitStepView::Systemctl { required, .. } => required,
        _ => true,
    }
}

impl UnitStep {
    /// Whether a failure of this step ends the change.
    pub fn stops(&self) -> (r: bool)
        ensures
            r == stops_on_failure(self@),
    {
        match self {
            UnitStep::Systemctl { args: _, required } => *required,
            _ => true,
        }
    }
}

/// The content of the unit file, for the program at the given path.
pub open spec fn unit_text(binary: Seq<char>) -> Seq<char> {
    "[Unit]\nDescription=Stalzone server blocker\nAfter=network-online.target\nWants=network-online.target\n\n[Service]\nType=oneshot\nRemainAfterExit=yes\nExecStart="@
        + binary + " apply\nExecStop="@ + binary
        + " clear\n\n[Install]\nWantedBy=multi-user.target\n"@
}

/// The content of the unit file.
pub fn unit_content(binary: &str) -> (r: String)
    ensures
        r@ == unit_text(binary@),
{
    let mut r =
        "[Unit]\nDescription=Stalzone server blocker\nAfter=network-online.target\nWants=network-online.target\n\n[Service]\nType=oneshot\nRemainAfterExit=yes\nExecStart=".to_owned();
    r.append(binary);
    r.append(" apply\nExecStop=");
    r.append(binary);
    r.append(" clear\n\n[Install]\nWantedBy=multi-user.target\n");
    r
}

/// The steps that install the unit.
pub open spec fn install_steps(binary: Seq<char>) -> Seq<UnitStepView> {
    seq![
        UnitStepView::EnsureRoot,
        UnitStepView::WriteUnit { content: unit_text(binary) },
        UnitStepView::Systemctl { args: seq!["daemon-reload"@], required: true },
    ]
}

/// The steps that enable and start the unit.
pub open spec fn enable_steps() -> Seq<UnitStepView> {
    seq![
        UnitStepView::EnsureRoot,
        UnitStepView::Systemctl { args: seq!["enable"@, "--now"@, SERVICE_NAME@], required: true },
    ]
}

/// The steps that disable and stop the unit; that `systemctl` fails is passed over.
pub open spec fn disable_steps() -> Seq<UnitStepView> {
    seq![
        UnitStepView::EnsureRoot,
        UnitStepView::Systemctl {
            args: seq!["disable"@, "--now"@, SERVICE_NAME@],
            required: false,
        },
    ]
}

/// The steps that bring the unit in line with the setting.
pub open spec fn boot_steps(
    apply_on_boot: bool,
    installed: bool,
    binary: Seq<char>,
) -> Seq<UnitStepView> {
    if apply_on_boot && installed {
        enable_steps()
    } else if apply_on_boot {
        install_steps(binary) + enable_steps()
    } else if installed {
        disable_steps()
    } else {
        Seq::empty()
    }
}

/// The steps that install the unit for the program at the given path.
pub fn install_unit(binary: &str) -> (r: Vec<UnitStep>)
    ensures
        step_views(r@) == install_steps(binary@),
{
    let args: Vec<String> = vec!["daemon-reload".to_owned()];
    assert(texts(args@) == seq!["daemon-reload"@]);
    let r: Vec<UnitStep> = vec![
        UnitStep::EnsureRoot,
        UnitStep::WriteUnit { content: unit_content(binary) },
        UnitStep::Systemctl { args, required: true },
    ];
    assert(step_views(r@) == install_steps(binary@));
    r
}

/// The steps that enable and start the unit.
pub fn enable() -> (r: Vec<UnitStep>)
    ensures
        step_views(r@) == enable_steps(),
{
    let args: Vec<String> = vec!["enable".to_owned(), "--now".to_owned(), SERVICE_NAME.to_owned()];
    assert(texts(args@) == seq!["enable"@, "--now"@, SERVICE_NAME@]);
    let r: Vec<UnitStep> = vec![
        UnitStep::EnsureRoot,
        UnitStep::Systemctl { args, required: true },
    ];
    assert(step_views(r@) == enable_steps());
    r
}

/// The steps that disable and stop the unit.
pub fn disable() -> (r: Vec<UnitStep>)
    ensures
        step_views(r@) == disable_steps(),
{
    let args: Vec<String> = vec!["disable".to_owned(), "--now".to_owned(), SERVICE_NAME.to_owned()];
    assert(texts(args@) == seq!["disable"@, "--now"@, SERVICE_NAME@]);
    let r: Vec<UnitStep> = vec![
        UnitStep::EnsureRoot,
        UnitStep::Systemctl { args, required: false },
    ];
    assert(step_views(r@) == disable_steps());
    r
}

/// The steps that bring the unit in line with the setting.
pub fn sync_boot(apply_on_boot: bool, installed: bool, binary: &str) -> (r: Vec<UnitStep>)
    ensures
        step_views(r@) == boot_steps(apply_on_boot, installed, binary@),
{
    if apply_on_boot {
        if installed {
            enable()
        } else {
            let mut r = install_unit(binary);
            let mut more = enable();
            let ghost first = step_views(r@);
            let ghost second = step_views(more@);
            r.append(&mut more);
            assert(step_views(r@) == first + second);
            r
        }
    } else if installed {
        disable()
    } else {
        let r: Vec<UnitStep> = Vec::new();
        assert(step_views(r@) == Seq::<UnitStepView>::empty());
        r
    }
}

/// A unit that is neither wanted at boot nor installed is left alone, and any
/// change begins by asking for root.
pub proof fn unit_change_needs_root(apply_on_boot: bool, installed: bool, binary: Seq<char>)
    ensures
        boot_steps(apply_on_boot, installed, binary).len() == 0 <==> !apply_on_boot && !installed,
        boot_steps(apply_on_boot, installed, binary).len() > 0 ==> boot_steps(
            apply_on_boot,
            installed,
            binary,
        )[0] == UnitStepView::EnsureRoot,
{
}

/// The message of a `systemctl` call that failed.
pub open spec fn systemctl_failure(args: Seq<Seq<char>>, stderr: Seq<char>) -> Seq<char> {
    "systemctl "@ + joined(args, " "@) + " завершился с ошибкой: "@ + trimmed(stderr)
}

/// The message of a `systemctl` call that failed with the given error output.
pub fn systemctl_error(args: &Vec<String>, stderr: &str) -> (r: String)
    ensures
        r@ == systemctl_failure(texts(args@), stderr@),
{
    let mut r = "systemctl ".to_owned();
    r.append(join(args, " ").as_str());
    r.append(" завершился с ошибкой: ");
    r.append(trim(stderr));
    r
}

} // verus!
