//! The life of a machine: how it is launched, how it is stopped, and what is undone
//! when it is gone.

use vstd::prelude::*;

use super::create::{Cleanup, Order, OrderView};
use super::state::{EnvironmentState, ManagerView, VmManagerState};
use crate::numbers;
use crate::text::{self, prefixed};

verus! {

// ---------------------------------------------------------------------------
// Launching
// ---------------------------------------------------------------------------

/// Whether `fctools` takes a text as the id of a machine.
pub uninterp spec fn vmm_id_taken(id: Seq<char>) -> bool;

/// An ASCII letter, an ASCII digit or a dash.
pub open spec fn is_vmm_id_char(c: char) -> bool {
    ('a' <= c && c <= 'z') || ('A' <= c && c <= 'Z') || ('0' <= c && c <= '9') || c == '-'
}

/// `fctools::vmm::id::VmmId::new`: whether it takes a text as the id of a machine.
/// That depends on the text alone. Of ASCII letters, digits and dashes it takes 1 to
/// 64. Which letters and digits beyond ASCII it takes is not said here.
#[verifier::external_body]
fn takes_vmm_id(id: &str) -> (r: bool)
    ensures
        r == vmm_id_taken(id@),
        (forall|i: int| 0 <= i < id@.len() ==> is_vmm_id_char(#[trigger] id@[i])) ==> r == (1
            <= id@.len() <= 64),
{
    fctools::vmm::id::VmmId::new(id).is_ok()
}

/// A drive of a machine.
#[derive(Debug)]
pub struct DrivePlan {
    /// Its id.
    pub drive_id: String,
    /// The image that is on it.
    pub place: String,
    /// Whether the machine boots from it.
    pub is_root_device: bool,
    /// Whether the machine cannot change it.
    pub is_read_only: bool,
}

/// The fields of a drive.
pub struct DriveView {
    /// Its id.
    pub drive_id: Seq<char>,
    /// The image that is on it.
    pub place: Seq<char>,
    /// Whether the machine boots from it.
    pub is_root_device: bool,
    /// Whether the machine cannot change it.
    pub is_read_only: bool,
}

impl View for DrivePlan {
    type V = DriveView;

    open spec fn view(&self) -> DriveView {
        DriveView {
            drive_id: self.drive_id@,
            place: self.place@,
            is_root_device: self.is_root_device,
            is_read_only: self.is_read_only,
        }
    }
}

/// The views of a run of drives.
pub open spec fn drive_views(s: Seq<DrivePlan>) -> Seq<DriveView> {
    Seq::new(s.len(), |i: int| s[i]@)
}

/// The drives of a machine: the image that it boots from, and the one with its files if
/// there are any. It can change neither.
pub open spec fn drives(rootfs: Seq<char>, files: Option<Seq<char>>) -> Seq<DriveView> {
    let root = DriveView {
        drive_id: "rootfs"@,
        place: rootfs,
        is_root_device: true,
        is_read_only: true,
    };
    match files {
        Some(image) => seq![
            root,
            DriveView {
                drive_id: "files"@,
                place: image,
                is_root_device: false,
                is_read_only: true,
            },
        ],
        None => seq![root],
    }
}

/// The drives of a machine.
pub fn plan_drives(rootfs: &str, files: Option<&str>) -> (r: Vec<DrivePlan>)
    ensures
        drive_views(r@) == drives(
            rootfs@,
            match files {
                Some(image) => Some(image@),
                None => None,
            },
        ),
{
    let mut r: Vec<DrivePlan> = Vec::new();
    r.push(
        DrivePlan {
            drive_id: "rootfs".to_owned(),
            place: rootfs.to_owned(),
            is_root_device: true,
            is_read_only: true,
        },
    );
    match files {
        Some(image) => {
            r.push(
                DrivePlan {
                    drive_id: "files".to_owned(),
                    place: image.to_owned(),
                    is_root_device: false,
                    is_read_only: true,
                },
            );
        },
        None => {},
    }
    proof {
        let image = match files {
            Some(image) => Some(image@),
            None => None,
        };
        assert(drive_views(r@) =~= drives(rootfs@, image));
    }
    r
}

/// How a machine is launched.
pub struct LaunchPlan {
    /// The program that runs it.
    pub firecracker: String,
    /// The program that jails it.
    pub jailer: String,
    /// The program that edits its snapshots.
    pub snapshot_editor: String,
    /// Where its control socket is.
    pub api_socket: String,
    /// Its id, under which it is jailed.
    pub jail_id: String,
    /// The group that limits its resources.
    pub parent_cgroup: String,
    /// The limits: their names and values.
    pub cgroups: Vec<(String, String)>,
    /// The kernel that it boots.
    pub kernel: String,
    /// What the kernel is told.
    pub boot_args: String,
    /// Its drives.
    pub drives: Vec<DrivePlan>,
    /// The number of its processors.
    pub vcpu_count: u8,
    /// Its memory, in MiB.
    pub mem_size_mib: u32,
    /// Its network interface, as it sees it.
    pub iface_id: String,
    /// Its network interface, as the host sees it.
    pub host_dev_name: String,
    /// How long it may take to start, in seconds.
    pub start_timeout_secs: u64,
}

/// The name of a session with dashes in place of underscores.
pub open spec fn dashed(id: Seq<char>) -> Seq<char> {
    Seq::new(
        id.len(),
        |i: int|
            if id[i] == '_' {
                '-'
            } else {
                id[i]
            },
    )
}

/// What the kernel is told: among other things, the addresses of the machine and of
/// the host.
pub open spec fn boot_args_text(vm_ip: Seq<char>, host_tap_ip: Seq<char>) -> Seq<char> {
    "console=ttyS0 reboot=k panic=1 root=/dev/vda ro ip="@ + vm_ip + "::"@ + host_tap_ip
        + ":255.255.255.0::eth0:off"@
}

/// Whether the limits are those of a machine with that many processors and that much
/// memory: as much time as the processors give, that memory, and 64 processes.
pub open spec fn limits(c: Seq<(String, String)>, vcpus: u32, memory_mib: u32) -> bool {
    &&& c.len() == 3
    &&& c[0].0@ == "cpu.max"@
    &&& c[0].1@ == numbers::decimal((vcpus * 100000) as nat) + " 100000"@
    &&& c[1].0@ == "memory.max"@
    &&& c[1].1@ == numbers::decimal((memory_mib * 1024 * 1024) as nat)
    &&& c[2].0@ == "pids.max"@
    &&& c[2].1@ == "64"@
}

/// Whether the plan is the one for that order, with the image that holds its files if there
/// is one.
pub open spec fn plans(p: LaunchPlan, o: OrderView, files: Option<Seq<char>>) -> bool {
    &&& p.firecracker@ == "/usr/local/bin/firecracker"@
    &&& p.jailer@ == "/usr/local/bin/jailer"@
    &&& p.snapshot_editor@ == "/usr/local/bin/snapshot-editor"@
    &&& p.api_socket@ == "/run/ae-vm-"@ + o.session_id + ".sock"@
    &&& p.jail_id@ == dashed(o.session_id)
    &&& p.parent_cgroup@ == "ae-vm-manager"@
    &&& limits(p.cgroups@, o.vcpus, o.memory_mib)
    &&& p.kernel@ == "vmlinux-5.10-new.bin"@
    &&& p.boot_args@ == boot_args_text(o.vm_ip, o.host_tap_ip)
    &&& drive_views(p.drives@) == drives(o.rootfs, files)
    &&& p.vcpu_count == o.vcpus
    &&& p.mem_size_mib == o.memory_mib
    &&& p.iface_id@ == "eth0"@
    &&& p.host_dev_name@ == o.tap_interface
    &&& p.start_timeout_secs == 10
}

fn with_dashes(id: &str) -> (s: String)
    ensures
        s@ == dashed(id@),
{
    let cs = text::chars_of(id);
    let mut v: Vec<char> = Vec::new();
    let mut i: usize = 0;
    while i < cs.len()
        invariant
            i <= cs@.len(),
            v@.len() == i,
            forall|j: int|
                0 <= j < i ==> #[trigger] v@[j] == (if cs@[j] == '_' {
                    '-'
                } else {
                    cs@[j]
                }),
        decreases cs@.len() - i,
    {
        if cs[i] == '_' {
            v.push('-');
        } else {
            v.push(cs[i]);
        }
        i = i + 1;
    }
    proof {
        assert(v@ =~= dashed(id@));
    }
    text::string_of(v.as_slice())
}

/// What the kernel is told.
pub fn boot_args(vm_ip: &str, host_tap_ip: &str) -> (s: String)
    ensures
        s@ == boot_args_text(vm_ip@, host_tap_ip@),
{
    let mut s = prefixed("console=ttyS0 reboot=k panic=1 root=/dev/vda ro ip=", vm_ip);
    s.append("::");
    s.append(host_tap_ip);
    s.append(":255.255.255.0::eth0:off");
    s
}

/// How a machine is launched for an order. One with more than 255 processors is refused,
/// and one whose name cannot be that of a jail.
pub fn launch_plan(o: &Order, files: Option<&str>) -> (r: Result<LaunchPlan, String>)
    ensures
        match r {
            Ok(p) => o.vcpus <= 255 && vmm_id_taken(dashed(o@.session_id)) && plans(
                p,
                o@,
                match files {
                    Some(image) => Some(image@),
                    None => None,
                },
            ),
            Err(e) => {
                ||| o.vcpus > 255 && e@ == "vcpus must be at most 255"@
                ||| o.vcpus <= 255 && !vmm_id_taken(dashed(o@.session_id)) && e@
                    == "invalid session_id for VmmId"@
            },
        },
        super::helpers::valid_id(o@.session_id) && o.vcpus <= 255 ==> r is Ok,
{
    if o.vcpus > 255 {
        return Err("vcpus must be at most 255".to_owned());
    }
    let jail_id = with_dashes(o.session_id.as_str());
    proof {
        if super::helpers::valid_id(o@.session_id) {
            assert forall|i: int| 0 <= i < jail_id@.len() implies is_vmm_id_char(
                #[trigger] jail_id@[i],
            ) by {
                assert(super::helpers::is_id_char(o@.session_id[i]));
            }
        }
    }
    if !takes_vmm_id(jail_id.as_str()) {
        return Err("invalid session_id for VmmId".to_owned());
    }
    let mut api_socket = prefixed("/run/ae-vm-", o.session_id.as_str());
    api_socket.append(".sock");
    let mut cpu = numbers::number_string(o.vcpus as u64 * 100000);
    cpu.append(" 100000");
    let memory: u64 = o.memory_mib as u64 * 1024 * 1024;
    let mut cgroups: Vec<(String, String)> = Vec::new();
    cgroups.push(("cpu.max".to_owned(), cpu));
    cgroups.push(("memory.max".to_owned(), numbers::number_string(memory)));
    cgroups.push(("pids.max".to_owned(), "64".to_owned()));
    Ok(
        LaunchPlan {
            firecracker: "/usr/local/bin/firecracker".to_owned(),
            jailer: "/usr/local/bin/jailer".to_owned(),
            snapshot_editor: "/usr/local/bin/snapshot-editor".to_owned(),
            api_socket,
            jail_id,
            parent_cgroup: "ae-vm-manager".to_owned(),
            cgroups,
            kernel: "vmlinux-5.10-new.bin".to_owned(),
            boot_args: boot_args(o.vm_ip.as_str(), o.host_tap_ip.as_str()),
            drives: plan_drives(o.rootfs.as_str(), files),
            vcpu_count: o.vcpus as u8,
            mem_size_mib: o.memory_mib,
            iface_id: "eth0".to_owned(),
            host_dev_name: o.tap_interface.clone(),
            start_timeout_secs: 10,
        },
    )
}

/// Why a machine could not be prepared.
pub fn prepare_failure(why: &str) -> (s: String)
    ensures
        s@ == "Failed to prepare VM: "@ + why@,
{
    prefixed("Failed to prepare VM: ", why)
}

/// Why a machine could not be started.
pub fn start_failure(why: &str) -> (s: String)
    ensures
        s@ == "Failed to start VM: "@ + why@,
{
    prefixed("Failed to start VM: ", why)
}

/// Why a drive, or the kernel, could not be made ready for a machine.
pub fn resource_failure(what: &str) -> (s: String)
    ensures
        s@ == "Failed to create "@ + what@ + " resource"@,
{
    let mut s = prefixed("Failed to create ", what);
    s.append(" resource");
    s
}

/// A machine can change none of its drives, and boots from one of them, which holds the
/// image that was asked for.
pub proof fn law_drives_are_read_only(rootfs: Seq<char>, files: Option<Seq<char>>)
    ensures
        forall|i: int|
            0 <= i < drives(rootfs, files).len() ==> (#[trigger] drives(
                rootfs,
                files,
            )[i]).is_read_only && drives(rootfs, files)[i].is_root_device == (i == 0),
        drives(rootfs, files)[0].place == rootfs,
{
}

// ---------------------------------------------------------------------------
// Stopping
// ---------------------------------------------------------------------------

/// A way to stop a machine.
#[derive(Clone, Copy, Debug, PartialEq, Eq, Structural)]
pub enum ShutdownMethod {
    /// The machine is asked to stop.
    CtrlAltDel,
    /// The machine is ended.
    Kill,
}

/// One step in stopping a machine.
#[derive(Clone, Copy, Debug, PartialEq, Eq, Structural)]
pub struct ShutdownStep {
    /// What is done.
    pub method: ShutdownMethod,
    /// How long it may take, in seconds.
    pub timeout_secs: u64,
    /// Whether the machine stops of itself.
    pub graceful: bool,
}

/// The steps in stopping a machine: it is asked to, and has five seconds for it; then
/// it is ended. Where it is to be stopped by force, it is ended at once.
pub open spec fn stop_steps(force: bool) -> Seq<ShutdownStep> {
    let ask = ShutdownStep {
        method: ShutdownMethod::CtrlAltDel,
        timeout_secs: 5,
        graceful: true,
    };
    let kill = ShutdownStep { method: ShutdownMethod::Kill, timeout_secs: 3, graceful: false };
    if force {
        seq![kill]
    } else {
        seq![ask, kill]
    }
}

/// The steps in stopping a machine.
pub fn shutdown_steps(force: bool) -> (r: Vec<ShutdownStep>)
    ensures
        r@ == stop_steps(force),
{
    let mut r: Vec<ShutdownStep> = Vec::new();
    if !force {
        r.push(
            ShutdownStep { method: ShutdownMethod::CtrlAltDel, timeout_secs: 5, graceful: true },
        );
    }
    r.push(ShutdownStep { method: ShutdownMethod::Kill, timeout_secs: 3, graceful: false });
    proof {
        assert(r@ =~= stop_steps(force));
    }
    r
}

// ---------------------------------------------------------------------------
// The life of a machine
// ---------------------------------------------------------------------------

/// How far a machine has come in its life.
#[derive(Clone, Copy, Debug, PartialEq, Eq, Structural)]
pub enum Life {
    /// It is being launched.
    Launching,
    /// It runs.
    Running,
    /// It is being stopped.
    Stopping,
    /// It is gone, and its session is being deleted; whether it never ran.
    DroppingSession(bool),
    /// It is gone, and its rules are being removed; whether it never ran.
    DroppingRules(bool),
    /// It is gone, and its interface is being taken away; whether it never ran.
    DroppingTap(bool),
    /// Nothing is left of it.
    Ended,
}

/// What happens to a machine.
#[derive(Clone, Copy, Debug, PartialEq, Eq, Structural)]
pub enum LifeEvent {
    /// It was launched.
    Launched,
    /// It could not be launched.
    LaunchFailed,
    /// It is to stop; whether by force.
    StopAsked(bool),
    /// It has stopped, or could not be stopped.
    Stopped,
    /// What was to be undone was undone, or could not be.
    Undone,
}

/// What is to be done for a machine next.
#[derive(Debug)]
pub enum LifeAction {
    /// Wait until it is to stop.
    Wait,
    /// Stop it in these steps.
    Stop(Vec<ShutdownStep>),
    /// Undo this.
    Undo(Cleanup),
    /// Nothing more: let go of what is held for it.
    LetGo,
}

/// Whether the event can happen to a machine that has come that far.
pub open spec fn can_happen(life: Life, e: LifeEvent) -> bool {
    match life {
        Life::Launching => e is Launched || e is LaunchFailed,
        Life::Running => e is StopAsked,
        Life::Stopping => e is Stopped,
        Life::DroppingSession(_) => e is Undone,
        Life::DroppingRules(_) => e is Undone,
        Life::DroppingTap(_) => e is Undone,
        Life::Ended => false,
    }
}

/// How far a machine has come after an event.
pub open spec fn life_after(life: Life, e: LifeEvent) -> Life {
    match life {
        Life::Launching => if e is Launched {
            Life::Running
        } else {
            Life::DroppingSession(true)
        },
        Life::Running => Life::Stopping,
        Life::Stopping => Life::DroppingSession(false),
        Life::DroppingSession(failed) => Life::DroppingRules(failed),
        Life::DroppingRules(failed) => Life::DroppingTap(failed),
        Life::DroppingTap(_) => Life::Ended,
        Life::Ended => Life::Ended,
    }
}

/// What is to be undone when a machine has come that far.
pub open spec fn undo_in(life: Life) -> Option<Cleanup> {
    match life {
        Life::DroppingSession(_) => Some(Cleanup::DeleteProxySession),
        Life::DroppingRules(_) => Some(Cleanup::RemoveRules),
        Life::DroppingTap(_) => Some(Cleanup::RemoveTap),
        _ => None,
    }
}

/// Whether `a` is what is to be done when a machine has come to `next` by that event.
pub open spec fn acts(next: Life, e: LifeEvent, a: LifeAction) -> bool {
    match a {
        LifeAction::Wait => next == Life::Running,
        LifeAction::Stop(steps) => next == Life::Stopping && e is StopAsked && steps@
            == stop_steps(e->StopAsked_0),
        LifeAction::Undo(c) => undo_in(next) == Some(c),
        LifeAction::LetGo => next == Life::Ended,
    }
}

/// What the manager knows after an event: a machine that could not be launched has
/// failed; when nothing is left of it, its address is free, and it has exited unless
/// it has failed.
pub open spec fn manager_after(
    v: ManagerView,
    id: Seq<char>,
    ip: Seq<char>,
    life: Life,
    e: LifeEvent,
) -> ManagerView {
    match life {
        Life::Launching => if e is LaunchFailed {
            super::state::with_status(v, id, EnvironmentState::Failed)
        } else {
            v
        },
        Life::DroppingTap(failed) => {
            let w = super::create::given_up(v, ip);
            if failed {
                w
            } else {
                super::state::with_status(w, id, EnvironmentState::Exited)
            }
        },
        _ => v,
    }
}

impl Life {
    /// A machine that is being launched.
    pub fn new() -> (r: Life)
        ensures
            r == Life::Launching,
    {
        Life::Launching
    }

    /// Goes on from an event: what is to be done next for the machine.
    pub fn step(
        &mut self,
        state: &mut VmManagerState,
        session_id: &str,
        vm_ip: &str,
        event: LifeEvent,
    ) -> (a: LifeAction)
        requires
            can_happen(*old(self), event),
        ensures
            *final(self) == life_after(*old(self), event),
            acts(life_after(*old(self), event), event, a),
            final(state)@ == manager_after(
                old(state)@,
                session_id@,
                vm_ip@,
                *old(self),
                event,
            ),
    {
        match *self {
            Life::Launching => match event {
                LifeEvent::Launched => {
                    *self = Life::Running;
                    LifeAction::Wait
                },
                _ => {
                    let _ = state.set_status(session_id, EnvironmentState::Failed);
                    *self = Life::DroppingSession(true);
                    LifeAction::Undo(Cleanup::DeleteProxySession)
                },
            },
            Life::Running => {
                let force = match event {
                    LifeEvent::StopAsked(force) => force,
                    _ => false,
                };
                *self = Life::Stopping;
                LifeAction::Stop(shutdown_steps(force))
            },
            Life::Stopping => {
                *self = Life::DroppingSession(false);
                LifeAction::Undo(Cleanup::DeleteProxySession)
            },
            Life::DroppingSession(failed) => {
                *self = Life::DroppingRules(failed);
                LifeAction::Undo(Cleanup::RemoveRules)
            },
            Life::DroppingRules(failed) => {
                *self = Life::DroppingTap(failed);
                LifeAction::Undo(Cleanup::RemoveTap)
            },
            Life::DroppingTap(failed) => {
                state.release_ip(vm_ip);
                if !failed {
                    let _ = state.set_status(session_id, EnvironmentState::Exited);
                }
                *self = Life::Ended;
                LifeAction::LetGo
            },
            Life::Ended => LifeAction::LetGo,
        }
    }
}

// ---------------------------------------------------------------------------
// Laws
// ---------------------------------------------------------------------------

/// How far a machine has come after a run of events.
pub open spec fn life_after_all(events: Seq<LifeEvent>) -> Life
    decreases events.len(),
{
    if events.len() == 0 {
        Life::Launching
    } else {
        life_after(life_after_all(events.drop_last()), events.last())
    }
}

/// Whether the events can happen one after the other.
pub open spec fn can_all_happen(events: Seq<LifeEvent>) -> bool
    decreases events.len(),
{
    events.len() == 0 || (can_all_happen(events.drop_last()) && can_happen(
        life_after_all(events.drop_last()),
        events.last(),
    ))
}

/// What has been undone, or is being undone, after a run of events, in order.
pub open spec fn undone(events: Seq<LifeEvent>) -> Seq<Cleanup>
    decreases events.len(),
{
    if events.len() == 0 {
        Seq::empty()
    } else {
        let before = undone(events.drop_last());
        match undo_in(life_after_all(events)) {
            Some(c) => before.push(c),
            None => before,
        }
    }
}

/// What is undone by the time that a machine has come that far.
pub open spec fn undone_by(life: Life) -> Seq<Cleanup> {
    match life {
        Life::DroppingSession(_) => seq![Cleanup::DeleteProxySession],
        Life::DroppingRules(_) => seq![Cleanup::DeleteProxySession, Cleanup::RemoveRules],
        Life::DroppingTap(_) => seq![
            Cleanup::DeleteProxySession,
            Cleanup::RemoveRules,
            Cleanup::RemoveTap,
        ],
        Life::Ended => seq![
            Cleanup::DeleteProxySession,
            Cleanup::RemoveRules,
            Cleanup::RemoveTap,
        ],
        _ => Seq::empty(),
    }
}

/// Whatever happens to a machine, its session is deleted before its rules are removed,
/// and those before its interface is taken away; each of them once, and all of them
/// by the time that nothing is left of it.
pub proof fn law_teardown_order(events: Seq<LifeEvent>)
    requires
        can_all_happen(events),
    ensures
        undone(events) == undone_by(life_after_all(events)),
    decreases events.len(),
{
    if events.len() > 0 {
        law_teardown_order(events.drop_last());
        assert(undone(events) =~= undone_by(life_after_all(events)));
    }
}

/// The address of a machine is free once nothing is left of it, and not before: until
/// then what happens to it does not change which addresses are given out.
pub proof fn law_address_is_kept_to_the_end(
    v: ManagerView,
    id: Seq<char>,
    ip: Seq<char>,
    life: Life,
    e: LifeEvent,
)
    requires
        can_happen(life, e),
    ensures
        life_after(life, e) == Life::Ended ==> manager_after(v, id, ip, life, e).allocated
            == super::state::without_text(v.allocated, ip),
        life_after(life, e) != Life::Ended ==> manager_after(v, id, ip, life, e).allocated
            == v.allocated,
{
}

/// An environment whose machine has ended is told as exited, or as failed where the
/// machine never ran; no other environment changes.
pub proof fn law_end_is_told(v: ManagerView, id: Seq<char>, ip: Seq<char>, failed: bool)
    requires
        v.environments.dom().contains(id),
        failed ==> v.environments[id].status == EnvironmentState::Failed,
    ensures
        ({
            let w = manager_after(v, id, ip, Life::DroppingTap(failed), LifeEvent::Undone);
            &&& w.environments.dom() == v.environments.dom()
            &&& w.environments[id].status == (if failed {
                EnvironmentState::Failed
            } else {
                EnvironmentState::Exited
            })
            &&& forall|other: Seq<char>|
                other != id && #[trigger] v.environments.dom().contains(other)
                    ==> w.environments[other] == v.environments[other]
        }),
{
    let w = manager_after(v, id, ip, Life::DroppingTap(failed), LifeEvent::Undone);
    assert(w.environments.dom() =~= v.environments.dom());
}

// ---------------------------------------------------------------------------
// Laws on plans
// ---------------------------------------------------------------------------

/// A machine gets what was ordered for it: as many processors and as much memory, in its
/// own settings and in its limits; the image, and the files if there are any; the
/// interface; and its address and the host's, from its start.
pub proof fn law_machine_gets_what_was_ordered(
    p: LaunchPlan,
    o: OrderView,
    files: Option<Seq<char>>,
)
    requires
        plans(p, o, files),
    ensures
        p.vcpu_count == o.vcpus,
        p.mem_size_mib == o.memory_mib,
        p.cgroups@.len() == 3,
        p.cgroups@[0].0@ == "cpu.max"@,
        text::split_once(p.cgroups@[0].1@, ' ') matches Some((quota, period)) && numbers::parsed(
            quota,
            u64::MAX as nat,
        ) == Some((o.vcpus * 100000) as nat) && period == "100000"@,
        p.cgroups@[1].0@ == "memory.max"@,
        numbers::parsed(p.cgroups@[1].1@, u64::MAX as nat) == Some(
            (o.memory_mib * 1024 * 1024) as nat,
        ),
        p.cgroups@[2].0@ == "pids.max"@,
        p.cgroups@[2].1@ == "64"@,
        p.drives@.len() == (if files is Some {
            2int
        } else {
            1int
        }),
        p.drives@[0].place@ == o.rootfs && p.drives@[0].is_root_device && p.drives@[0].is_read_only,
        files matches Some(image) ==> p.drives@[1].place@ == image && !p.drives@[1].is_root_device
            && p.drives@[1].is_read_only,
        p.host_dev_name@ == o.tap_interface,
        text::contains(p.boot_args@, o.vm_ip + "::"@ + o.host_tap_ip + ":255.255.255.0::eth0:off"@),
        p.api_socket@ == "/run/ae-vm-"@ + o.session_id + ".sock"@,
        p.jail_id@ == dashed(o.session_id),
{
    lemma_quota(o.vcpus);
    numbers::law_number_reads_back((o.memory_mib * 1024 * 1024) as nat, u64::MAX as nat);
    let d = drive_views(p.drives@);
    assert(d.len() == p.drives@.len());
    assert(d[0] == p.drives@[0]@);
    if files is Some {
        assert(d[1] == p.drives@[1]@);
    }
    lemma_addresses_in_boot_args(o.vm_ip, o.host_tap_ip);
}

proof fn lemma_quota(vcpus: u32)
    ensures
        text::split_once(numbers::decimal((vcpus * 100000) as nat) + " 100000"@, ' ') matches Some(
            (quota, period),
        ) && numbers::parsed(quota, u64::MAX as nat) == Some((vcpus * 100000) as nat) && period
            == "100000"@,
{
    let number = (vcpus * 100000) as nat;
    let quota = numbers::decimal(number);
    let line = quota + " 100000"@;
    let n = quota.len() as int;
    reveal_strlit(" 100000");
    reveal_strlit("100000");
    numbers::lemma_decimal_reads_back(number);
    numbers::law_number_reads_back(number, u64::MAX as nat);
    assert(line[n] == ' ');
    assert forall|j: int| 0 <= j < n implies line[j] != ' ' by {
        assert(line[j] == quota[j]);
        assert(numbers::is_digit(quota[j]));
    }
    text::lemma_first_index(line, ' ', 0);
    assert(text::first_index(line, ' ', 0) == Some(n));
    assert(line.take(n) =~= quota);
    assert(line.skip(n + 1) =~= "100000"@);
}

proof fn lemma_rest_is_contained(
    a: Seq<char>,
    b: Seq<char>,
    c: Seq<char>,
    d: Seq<char>,
    e: Seq<char>,
)
    ensures
        text::contains(a + b + c + d + e, b + c + d + e),
{
    let rest = b + c + d + e;
    let none = Seq::<char>::empty();
    let all = a + b + c + d + e;
    assert(a + rest + none == all) by {
        assert(a + rest + none =~= a + rest);
        assert(a + (b + c) =~= a + b + c);
        assert(a + (b + c + d) =~= a + (b + c) + d);
        assert(a + (b + c + d + e) =~= a + (b + c + d) + e);
    }
    text::law_middle_is_contained(a, rest, none);
}

proof fn lemma_addresses_in_boot_args(vm_ip: Seq<char>, host_tap_ip: Seq<char>)
    ensures
        text::contains(
            boot_args_text(vm_ip, host_tap_ip),
            vm_ip + "::"@ + host_tap_ip + ":255.255.255.0::eth0:off"@,
        ),
{
    lemma_rest_is_contained(
        "console=ttyS0 reboot=k panic=1 root=/dev/vda ro ip="@,
        vm_ip,
        "::"@,
        host_tap_ip,
        ":255.255.255.0::eth0:off"@,
    );
}

/// The jail of a machine has the name of its environment with a dash for each underscore;
/// two environments with valid names have two sockets and two jails.
pub proof fn law_jails_are_apart(a: Seq<char>, b: Seq<char>)
    ensures
        dashed(a).len() == a.len(),
        forall|i: int|
            0 <= i < a.len() ==> #[trigger] dashed(a)[i] == (if a[i] == '_' {
                '-'
            } else {
                a[i]
            }),
        super::helpers::valid_id(a) && super::helpers::valid_id(b) && dashed(a) == dashed(b) ==> a
            == b,
        "/run/ae-vm-"@ + a + ".sock"@ == "/run/ae-vm-"@ + b + ".sock"@ ==> a == b,
{
    if super::helpers::valid_id(a) && super::helpers::valid_id(b) && dashed(a) == dashed(b) {
        assert(dashed(a).len() == a.len() && dashed(b).len() == b.len());
        assert forall|i: int| 0 <= i < a.len() implies a[i] == b[i] by {
            assert(dashed(a)[i] == dashed(b)[i]);
            assert(super::helpers::is_id_char(a[i]));
            assert(super::helpers::is_id_char(b[i]));
        }
        assert(a =~= b);
    }
    let p = "/run/ae-vm-"@;
    let s = p + a + ".sock"@;
    let t = p + b + ".sock"@;
    if s == t {
        let n = p.len() as int;
        assert(s.subrange(n, n + a.len()) =~= a);
        assert(t.subrange(n, n + b.len()) =~= b);
        assert(s.len() == t.len());
    }
}

/// A machine is asked to shut down and, if it does not, is killed. Where that is asked for
/// it is killed at once.
pub proof fn law_machine_is_asked_before_it_is_killed(force: bool)
    ensures
        stop_steps(force).last().method == ShutdownMethod::Kill,
        !stop_steps(force).last().graceful,
        force ==> stop_steps(force).len() == 1,
        !force ==> stop_steps(force).len() == 2 && stop_steps(force)[0].method
            == ShutdownMethod::CtrlAltDel && stop_steps(force)[0].graceful
            && stop_steps(force)[0].timeout_secs == 5,
{
}

/// The life of a machine goes one way: from its launch to its running, from there to its
/// stopping, and then through the undoing of what was made for it to its end. A launch that
/// failed goes to the undoing at once, and is remembered as such.
pub proof fn law_life_goes_one_way(life: Life, e: LifeEvent)
    requires
        can_happen(life, e),
    ensures
        e is Launched ==> life_after(life, e) == Life::Running,
        e is LaunchFailed ==> life_after(life, e) == Life::DroppingSession(true),
        e is StopAsked ==> life_after(life, e) == Life::Stopping,
        e is Stopped ==> life_after(life, e) == Life::DroppingSession(false),
        life matches Life::DroppingSession(f) ==> life_after(life, e) == Life::DroppingRules(f),
        life matches Life::DroppingRules(f) ==> life_after(life, e) == Life::DroppingTap(f),
        life is DroppingTap ==> life_after(life, e) == Life::Ended,
        life_after(life, e) != life,
{
}

/// A machine that could not be launched is told as failed at once, and nothing else of the
/// manager changes before the end.
pub proof fn law_failed_launch_is_told(
    v: ManagerView,
    id: Seq<char>,
    ip: Seq<char>,
    life: Life,
    e: LifeEvent,
)
    requires
        can_happen(life, e),
        v.environments.dom().contains(id),
        !(life is DroppingTap),
    ensures
        e is LaunchFailed ==> manager_after(v, id, ip, life, e).environments[id].status
            == EnvironmentState::Failed,
        !(e is LaunchFailed) ==> manager_after(v, id, ip, life, e) == v,
        manager_after(v, id, ip, life, e).allocated == v.allocated,
{
}

/// A drive is seen with all that it holds.
pub proof fn law_drive_is_seen_whole(d: DrivePlan)
    ensures
        d@.drive_id == d.drive_id@,
        d@.place == d.place@,
        d@.is_root_device == d.is_root_device,
        d@.is_read_only == d.is_read_only,
{
}

} // verus!
