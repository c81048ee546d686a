//! Launching environments and taking them down.

use agent_env::strmap::StrMap;
use agent_env::vm_manager::create::{
    check_request, gateway, registered, reserve, Cleanup, Connected, Guarded, ImageLookup,
    Registered, RequestBody, Reserved,
};
use agent_env::vm_manager::error::{Body, Reply};
use agent_env::vm_manager::files::{
    dir_size, fill_commands, format_command, image_name, image_size, mount_point, stage_file,
    staging_place, CloneJob, CloneStage, HostSource, Stage,
};
use agent_env::vm_manager::network::Outcome;
use agent_env::vm_manager::proxy_client::{
    connect_failure, delete_proxy_session, parse_reply, read_failure, register_proxy_session,
    RawHttpResponse,
};
use agent_env::vm_manager::state::{EnvironmentState, VmManagerState};
use agent_env::vm_manager::types::{
    CreateEnvironmentRequest, EgressAllowlistEntry, EgressConfig, FileEntry,
};
use agent_env::vm_manager::vm::{
    launch_plan, plan_drives, prepare_failure, resource_failure, shutdown_steps, start_failure,
    DrivePlan, Life, LifeAction, LifeEvent, ShutdownMethod,
};

fn request(id: &str) -> CreateEnvironmentRequest {
    CreateEnvironmentRequest {
        session_id: id.to_string(),
        image: "alpine-3.20-pi".to_string(),
        vcpus: 2,
        memory_mib: 512,
        files: vec![],
        egress: EgressConfig {
            allowlist: vec![
                EgressAllowlistEntry {
                    domain: "api.openai.com".to_string(),
                    inject_key: true,
                    credential_ref: Some("vault://key".to_string()),
                },
                EgressAllowlistEntry {
                    domain: "dl-cdn.alpinelinux.org".to_string(),
                    inject_key: false,
                    credential_ref: None,
                },
            ],
        },
        timeout_secs: 3600,
    }
}

fn reserved(state: &mut VmManagerState, id: &str) -> Reserved {
    let checked = check_request(state, RequestBody::Parsed(request(id))).ok().unwrap();
    assert_eq!(checked.image(), "alpine-3.20-pi");
    assert_eq!(checked.timeout_secs(), 3600);
    let image = ImageLookup::Found("/images/alpine".to_string());
    reserve(state, checked, image, 1751908626).ok().unwrap()
}

fn created_at_proxy() -> Result<RawHttpResponse, String> {
    Ok(RawHttpResponse {
        status: 201,
        body: "{}".to_string(),
    })
}

fn at_proxy(state: &mut VmManagerState, id: &str) -> Registered {
    let r = reserved(state, id);
    registered(state, r, created_at_proxy()).ok().unwrap().0
}

fn error(reply: Reply) -> (u16, String, String, Option<String>) {
    match reply.body {
        Body::Error(e) => (reply.status, e.error.code, e.error.message, e.error.detail),
        _ => panic!("expected an error"),
    }
}

fn seen(drives: &[DrivePlan]) -> Vec<(&str, &str, bool, bool)> {
    drives
        .iter()
        .map(|d| (d.drive_id.as_str(), d.place.as_str(), d.is_root_device, d.is_read_only))
        .collect()
}

#[test]
fn an_environment_is_launched() {
    let mut state = VmManagerState::new();
    let r = reserved(&mut state, "sess_8f7a3b2c_x");
    let proxy = r.proxy_request();
    assert_eq!(proxy.session_id, "sess_8f7a3b2c_x");
    assert_eq!(proxy.source_ip, "10.0.1.2");
    assert_eq!(proxy.expires_at, Some("2025-07-07T18:17:06Z".to_string()));
    assert_eq!(proxy.allowlist[0].mode, "mitm");
    assert_eq!(proxy.allowlist[0].credential_ref, Some("vault://key".to_string()));
    assert_eq!(proxy.allowlist[1].mode, "tunnel");
    assert_eq!(proxy.allowlist[1].domain, "dl-cdn.alpinelinux.org");
    let (r, body) = registered(&mut state, r, created_at_proxy()).ok().unwrap();
    assert_eq!(body, "{}");
    assert_eq!(r.order().tap_interface, "tap-sess_8f7-0");
    assert_eq!(r.order().host_tap_ip, "10.0.1.1");
    let c: Connected = r.connected(&mut state, Ok(())).ok().unwrap();
    assert_eq!(c.order().vm_ip, "10.0.1.2");
    let g: Guarded = c.guarded(&mut state, Ok(())).ok().unwrap();
    assert_eq!(g.order().rootfs, "/images/alpine");
    assert!(!state.knows("sess_8f7a3b2c_x"));
    let mut keys = StrMap::new();
    keys.insert("vault://key".to_string(), "sk-dummy".to_string());
    let (order, reply) = g.launched(&mut state, keys);
    assert_eq!(reply.status, 201);
    match reply.body {
        Body::Created(e) => {
            assert_eq!(e.session_id, "sess_8f7a3b2c_x");
            assert_eq!(e.status, "running");
            assert_eq!(e.vm_ip, "10.0.1.2");
            assert_eq!(e.tap_interface, "tap-sess_8f7-0");
            assert_eq!(e.proxy_session.id, "sess_8f7a3b2c_x");
            assert_eq!(e.proxy_session.proxy_url, "http://10.0.1.1:9999");
            assert_eq!(e.serial_output_url, "/v1/environments/sess_8f7a3b2c_x/serial");
            assert_eq!(e.started_at, "2025-07-07T17:17:06Z");
            assert_eq!(e.expires_at, Some("2025-07-07T18:17:06Z".to_string()));
            assert_eq!(e.dummy_keys.get("vault://key"), Some(&"sk-dummy".to_string()));
        }
        _ => panic!("expected an environment"),
    }
    assert!(state.knows("sess_8f7a3b2c_x"));
    let plan = launch_plan(&order, Some("/tmp/files.ext4")).unwrap();
    assert_eq!(plan.api_socket, "/run/ae-vm-sess_8f7a3b2c_x.sock");
    assert_eq!(plan.jail_id, "sess-8f7a3b2c-x");
    assert_eq!(plan.parent_cgroup, "ae-vm-manager");
    assert_eq!(
        plan.cgroups,
        vec![
            ("cpu.max".to_string(), "200000 100000".to_string()),
            ("memory.max".to_string(), "536870912".to_string()),
            ("pids.max".to_string(), "64".to_string()),
        ]
    );
    assert_eq!(
        plan.boot_args,
        "console=ttyS0 reboot=k panic=1 root=/dev/vda ro ip=10.0.1.2::10.0.1.1:255.255.255.0::eth0:off"
    );
    assert_eq!(plan.kernel, "vmlinux-5.10-new.bin");
    assert_eq!(
        seen(&plan.drives),
        vec![("rootfs", "/images/alpine", true, true), ("files", "/tmp/files.ext4", false, true)]
    );
    let plan = launch_plan(&order, None).unwrap();
    assert_eq!(seen(&plan.drives), vec![("rootfs", "/images/alpine", true, true)]);
    assert_eq!(plan.firecracker, "/usr/local/bin/firecracker");
    assert_eq!(plan.jailer, "/usr/local/bin/jailer");
    assert_eq!(plan.snapshot_editor, "/usr/local/bin/snapshot-editor");
    assert_eq!((plan.vcpu_count, plan.mem_size_mib), (2, 512));
    assert_eq!(plan.host_dev_name, "tap-sess_8f7-0");
    assert_eq!(plan.iface_id, "eth0");
    assert_eq!(plan.start_timeout_secs, 10);
}

#[test]
fn failed_starts_say_why() {
    assert_eq!(prepare_failure("no jail"), "Failed to prepare VM: no jail");
    assert_eq!(start_failure("Timeout"), "Failed to start VM: Timeout");
    assert_eq!(resource_failure("kernel"), "Failed to create kernel resource");
    let drives = plan_drives("/images/a", None);
    assert_eq!(seen(&drives), vec![("rootfs", "/images/a", true, true)]);
}

#[test]
fn ids_that_cannot_be_jailed_are_refused() {
    let mut state = VmManagerState::new();
    let c = at_proxy(&mut state, "sess_8f7a3b2c");
    let c = c.connected(&mut state, Ok(())).ok().unwrap();
    let g = c.guarded(&mut state, Ok(())).ok().unwrap();
    let (mut order, _) = g.launched(&mut state, StrMap::new());
    order.session_id = "no/slash".to_string();
    assert_eq!(launch_plan(&order, None).err().unwrap(), "invalid session_id for VmmId");
    order.session_id = "a".repeat(64);
    assert!(launch_plan(&order, None).is_ok());
    order.session_id = "a".repeat(65);
    assert!(launch_plan(&order, None).is_err());
    order.session_id = String::new();
    assert!(launch_plan(&order, None).is_err());
    order.session_id = "a".repeat(8);
    order.vcpus = 255;
    let plan = launch_plan(&order, None).unwrap();
    assert_eq!(plan.vcpu_count, 255);
    assert_eq!(plan.cgroups[0].1, "25500000 100000");
    for vcpus in [256, 257, u32::MAX] {
        order.vcpus = vcpus;
        assert_eq!(launch_plan(&order, None).err().unwrap(), "vcpus must be at most 255");
    }
}

#[test]
fn requests_that_cannot_be_met_are_refused() {
    let mut state = VmManagerState::new();
    let refusal = |state: &VmManagerState, body: RequestBody| {
        error(check_request(state, body).err().unwrap())
    };
    let invalid = |m: &str| (400, "INVALID_REQUEST".to_string(), m.to_string(), None);
    assert_eq!(
        refusal(&state, RequestBody::Unreadable),
        invalid("failed to read request body")
    );
    assert_eq!(
        refusal(&state, RequestBody::Malformed("x".to_string())),
        invalid("malformed JSON: x")
    );
    assert_eq!(
        refusal(&state, RequestBody::Parsed(request("UPPER-CASE"))),
        invalid("session_id must match ^[a-z0-9_]{8,64}$")
    );
    let mut keyless = request("a_session");
    keyless.egress.allowlist[0].credential_ref = None;
    assert_eq!(
        refusal(&state, RequestBody::Parsed(keyless)),
        invalid("credential_ref is required when inject_key is true")
    );
    let c = at_proxy(&mut state, "a_session");
    let c = c.connected(&mut state, Ok(())).ok().unwrap();
    c.guarded(&mut state, Ok(())).ok().unwrap().launched(&mut state, StrMap::new());
    assert_eq!(
        refusal(&state, RequestBody::Parsed(request("a_session"))),
        (
            409,
            "SESSION_EXISTS".to_string(),
            "session already exists: a_session".to_string(),
            None
        )
    );
}

#[test]
fn images_that_are_not_there() {
    let mut state = VmManagerState::new();
    let checked = check_request(&state, RequestBody::Parsed(request("a_session"))).ok().unwrap();
    assert_eq!(
        error(reserve(&mut state, checked, ImageLookup::Missing, 1).err().unwrap()),
        (
            404,
            "IMAGE_NOT_FOUND".to_string(),
            "image not found: alpine-3.20-pi".to_string(),
            None
        )
    );
    let checked = check_request(&state, RequestBody::Parsed(request("a_session"))).ok().unwrap();
    let lookup = ImageLookup::Unresolved("loop".to_string());
    assert_eq!(
        error(reserve(&mut state, checked, lookup, 1).err().unwrap()),
        (
            500,
            "INTERNAL_ERROR".to_string(),
            "failed to canonicalize image path: loop".to_string(),
            None
        )
    );
    assert!(state.allocated_ips.is_empty());
}

#[test]
fn no_address_is_left() {
    let mut state = VmManagerState::new();
    for _ in 0..64 {
        state.allocate_ip().unwrap();
    }
    let checked = check_request(&state, RequestBody::Parsed(request("a_session"))).ok().unwrap();
    let lookup = ImageLookup::Found("/i".to_string());
    assert_eq!(
        error(reserve(&mut state, checked, lookup, 1).err().unwrap()),
        (
            500,
            "INTERNAL_ERROR".to_string(),
            "failed to allocate IP: IP pool exhausted".to_string(),
            None
        )
    );
}

#[test]
fn what_the_proxy_refuses_is_given_up() {
    let answer = |status: u16| {
        Ok(RawHttpResponse {
            status,
            body: "why".to_string(),
        })
    };
    let detail = Some("why".to_string());
    let cases = vec![
        (
            Err("why".to_string()),
            (502, "PROXY_UNAVAILABLE", "failed to register proxy session", detail.clone()),
        ),
        (
            answer(422),
            (
                422,
                "CREDENTIAL_REF_INVALID",
                "credential reference could not be resolved",
                detail.clone(),
            ),
        ),
        (
            answer(409),
            (409, "SESSION_EXISTS", "proxy session already exists", None),
        ),
        (
            answer(200),
            (502, "PROXY_UNAVAILABLE", "proxy returned status 200", detail.clone()),
        ),
        (
            answer(0),
            (502, "PROXY_UNAVAILABLE", "proxy returned status 0", detail),
        ),
    ];
    for (answer, (status, code, message, detail)) in cases {
        let mut state = VmManagerState::new();
        state.allocate_ip().unwrap();
        let r = reserved(&mut state, "a_session");
        assert_eq!(state.allocated_ips.len(), 2);
        let reply = registered(&mut state, r, answer).err().unwrap();
        assert_eq!(
            error(reply),
            (status, code.to_string(), message.to_string(), detail)
        );
        assert_eq!(state.allocated_ips, vec!["10.0.1.2".to_string()]);
        assert!(!state.knows("a_session"));
    }
}

#[test]
fn a_failed_launch_is_undone() {
    let mut state = VmManagerState::new();
    let r = at_proxy(&mut state, "a_session");
    let f = r.connected(&mut state, Err("no tap".to_string())).err().unwrap();
    assert_eq!(f.cleanup, vec![Cleanup::DeleteProxySession]);
    assert_eq!(
        error(f.reply),
        (
            500,
            "VM_LAUNCH_FAILED".to_string(),
            "failed to set up TAP interface".to_string(),
            Some("no tap".to_string())
        )
    );
    assert!(state.allocated_ips.is_empty());
    let r = at_proxy(&mut state, "a_session");
    let c = r.connected(&mut state, Ok(())).ok().unwrap();
    let f = c.guarded(&mut state, Err("no nft".to_string())).err().unwrap();
    assert_eq!(f.cleanup, vec![Cleanup::RemoveTap, Cleanup::DeleteProxySession]);
    assert_eq!(
        error(f.reply),
        (
            500,
            "VM_LAUNCH_FAILED".to_string(),
            "failed to set up nftables rules".to_string(),
            Some("no nft".to_string())
        )
    );
    assert!(state.allocated_ips.is_empty());
}

#[test]
fn gateways() {
    for i in 0..64 {
        assert_eq!(
            gateway(&format!("10.0.1.{}", 2 + 4 * i)),
            Some(format!("10.0.1.{}", 1 + 4 * i))
        );
    }
    assert_eq!(gateway("1.2.3"), None);
    assert_eq!(gateway("1.2.3.256"), None);
    assert_eq!(gateway("1.x.2.3.4"), Some("1.2.3.3".to_string()));
    assert_eq!(gateway("1.2.3.0"), None);
}

fn running(state: &mut VmManagerState) {
    let r = at_proxy(state, "a_session");
    let c = r.connected(state, Ok(())).ok().unwrap();
    c.guarded(state, Ok(())).ok().unwrap().launched(state, StrMap::new());
}

fn status(state: &VmManagerState) -> EnvironmentState {
    state.environments.get("a_session").unwrap().status
}

#[test]
fn a_machine_runs_and_is_stopped() {
    let mut state = VmManagerState::new();
    running(&mut state);
    let mut life = Life::new();
    let mut step = |state: &mut VmManagerState, e: LifeEvent| {
        life.step(state, "a_session", "10.0.1.2", e)
    };
    assert!(matches!(step(&mut state, LifeEvent::Launched), LifeAction::Wait));
    match step(&mut state, LifeEvent::StopAsked(false)) {
        LifeAction::Stop(steps) => {
            assert_eq!(steps.len(), 2);
            assert_eq!(steps[0].method, ShutdownMethod::CtrlAltDel);
            assert_eq!((steps[0].timeout_secs, steps[0].graceful), (5, true));
            assert_eq!(steps[1].method, ShutdownMethod::Kill);
            assert_eq!((steps[1].timeout_secs, steps[1].graceful), (3, false));
        }
        a => panic!("expected Stop, got {a:?}"),
    }
    for (event, cleanup) in [
        (LifeEvent::Stopped, Cleanup::DeleteProxySession),
        (LifeEvent::Undone, Cleanup::RemoveRules),
        (LifeEvent::Undone, Cleanup::RemoveTap),
    ] {
        match step(&mut state, event) {
            LifeAction::Undo(c) => assert_eq!(c, cleanup),
            a => panic!("expected Undo, got {a:?}"),
        }
        assert_eq!(status(&state), EnvironmentState::Running);
        assert_eq!(state.allocated_ips.len(), 1);
    }
    assert!(matches!(step(&mut state, LifeEvent::Undone), LifeAction::LetGo));
    assert_eq!(status(&state), EnvironmentState::Exited);
    assert!(state.allocated_ips.is_empty());
    assert_eq!(life, Life::Ended);
}

#[test]
fn a_machine_that_never_ran_has_failed() {
    let mut state = VmManagerState::new();
    running(&mut state);
    let mut life = Life::new();
    let a = life.step(&mut state, "a_session", "10.0.1.2", LifeEvent::LaunchFailed);
    assert!(matches!(a, LifeAction::Undo(Cleanup::DeleteProxySession)));
    assert_eq!(status(&state), EnvironmentState::Failed);
    for _ in 0..3 {
        life.step(&mut state, "a_session", "10.0.1.2", LifeEvent::Undone);
    }
    assert_eq!(life, Life::Ended);
    assert_eq!(status(&state), EnvironmentState::Failed);
    assert!(state.allocated_ips.is_empty());
}

#[test]
fn stopping_by_force() {
    let steps = shutdown_steps(true);
    assert_eq!(steps.len(), 1);
    assert_eq!(steps[0].method, ShutdownMethod::Kill);
}

#[test]
fn requests_to_the_proxy() {
    assert_eq!(
        register_proxy_session("{\"ä\":1}"),
        "POST /sessions HTTP/1.1\r\nHost: localhost\r\nContent-Type: application/json\r\nContent-Length: 8\r\nConnection: close\r\n\r\n{\"ä\":1}"
            .as_bytes()
            .to_vec()
    );
    assert_eq!(
        delete_proxy_session("s"),
        b"DELETE /sessions/s HTTP/1.1\r\nHost: localhost\r\nConnection: close\r\n\r\n".to_vec()
    );
    assert_eq!(
        connect_failure("/run/x.sock"),
        "failed to connect to proxy socket: /run/x.sock"
    );
    assert_eq!(read_failure("reset"), "failed to read proxy response: reset");
}

#[test]
fn replies_of_the_proxy() {
    let r = parse_reply(b"HTTP/1.1 201 Created\r\nA: b\r\n\r\n{\"x\":\"\xff\"}\r\n\r\n").unwrap();
    assert_eq!(r.status, 201);
    assert_eq!(r.body, "{\"x\":\"\u{fffd}\"}\r\n\r\n");
    assert_eq!(parse_reply(b"HTTP/1.1\t 422\r\n\r\n").unwrap().status, 422);
    for head in ["HTTP/1.1", "HTTP/1.1 99999", "HTTP/1.1 x 200", ""] {
        let r = parse_reply(format!("{head}\r\n\r\nbody").as_bytes()).unwrap();
        assert_eq!((r.status, r.body.as_str()), (0, "body"));
    }
    assert_eq!(
        parse_reply(b"HTTP/1.1 200 OK\r\n").err().unwrap(),
        "malformed proxy response: no header terminator"
    );
}

fn file(source: &str) -> FileEntry {
    FileEntry {
        guest_path: "/home/agent/task.md".to_string(),
        source: source.to_string(),
        content: None,
        url: None,
        git_ref: None,
        path: None,
    }
}

#[test]
fn files_come_from_three_sources() {
    let mut f = file("inline");
    assert_eq!(
        stage_file(&f).err().unwrap(),
        "source=inline requires 'content' field for /home/agent/task.md"
    );
    f.content = Some("text".to_string());
    match stage_file(&f).unwrap() {
        Stage::Write(s) => assert_eq!(s, "text"),
        s => panic!("expected Write, got {s:?}"),
    }
    let mut f = file("git");
    assert_eq!(
        stage_file(&f).err().unwrap(),
        "source=git requires 'url' field for /home/agent/task.md"
    );
    f.url = Some("https://example.com/r".to_string());
    match stage_file(&f).unwrap() {
        Stage::Clone(url, r) => {
            assert_eq!((url.as_str(), r.as_str()), ("https://example.com/r", "main"))
        }
        s => panic!("expected Clone, got {s:?}"),
    }
    f.git_ref = Some("v1".to_string());
    match stage_file(&f).unwrap() {
        Stage::Clone(_, r) => assert_eq!(r, "v1"),
        s => panic!("expected Clone, got {s:?}"),
    }
    let mut f = file("path");
    assert_eq!(
        stage_file(&f).err().unwrap(),
        "source=path requires 'path' field for /home/agent/task.md"
    );
    f.path = Some("/x".to_string());
    match stage_file(&f).unwrap() {
        Stage::Copy(source) => assert_eq!(source.name(), "/x"),
        s => panic!("expected Copy, got {s:?}"),
    }
    assert_eq!(
        stage_file(&file("ftp")).err().unwrap(),
        "unknown file source type: ftp"
    );
}

fn host_source(path: &str) -> HostSource {
    let mut f = file("path");
    f.path = Some(path.to_string());
    match stage_file(&f).unwrap() {
        Stage::Copy(source) => source,
        s => panic!("expected Copy, got {s:?}"),
    }
}

#[test]
fn only_the_files_directory_may_be_copied_from() {
    for ok in [
        "/var/lib/ae-vm-manager/files",
        "/var/lib/ae-vm-manager/files/a/b",
    ] {
        let order = host_source("x").check_host_path(Some(ok)).unwrap();
        assert_eq!(order.place(), ok);
    }
    for bad in ["/etc/passwd", "/var/lib/ae-vm-manager/files2/a", "/var/lib/ae-vm-manager"] {
        assert_eq!(
            host_source("x").check_host_path(Some(bad)).err().unwrap(),
            format!("path injection restricted to /var/lib/ae-vm-manager/files/ — got {bad}")
        );
    }
    assert_eq!(
        host_source("gone").check_host_path(None).err().unwrap(),
        "source path does not exist: gone"
    );
}

#[test]
fn files_stay_below_the_staging_directory() {
    for (guest, place) in [
        ("/home/agent/task.md", "/st/home/agent/task.md"),
        ("home//agent/./x", "/st/home/agent/x"),
        ("/...", "/st/..."),
        ("/", "/st"),
        ("", "/st"),
    ] {
        assert_eq!(staging_place("/st", guest), place);
    }
    for (guest, place) in [
        ("/a/../x", "/st/a/../x"),
        ("/a/..", "/st/a/.."),
        ("/a/b/../../x", "/st/a/b/../../x"),
    ] {
        assert_eq!(staging_place("/st", guest), place);
    }
    for (guest, place) in [
        ("..", "/st"),
        ("/../x", "/st/x"),
        ("a/../../x", "/st/a/../x"),
        ("/../../a/../../../b/..", "/st/a/../b/.."),
    ] {
        assert_eq!(staging_place("/st", guest), place);
    }
}

#[test]
fn each_machine_has_its_own_interface() {
    let mut state = VmManagerState::new();
    let first = at_proxy(&mut state, "sess_12345678_a");
    let second = at_proxy(&mut state, "sess_12345678_b");
    assert_ne!(first.order().tap_interface, second.order().tap_interface);
    assert_ne!(first.order().vm_ip, second.order().vm_ip);
    let mut seen: Vec<String> = Vec::new();
    let mut state = VmManagerState::new();
    for _ in 0..64 {
        let r = at_proxy(&mut state, "sess_12345678_a");
        let tap = r.order().tap_interface.clone();
        assert!(tap.len() <= 15);
        assert!(!seen.contains(&tap));
        seen.push(tap);
    }
}

#[test]
fn an_order_carries_its_files() {
    let mut state = VmManagerState::new();
    let mut r = request("a_session");
    let mut f = file("inline");
    f.content = Some("text".to_string());
    r.files.push(f);
    let checked = check_request(&state, RequestBody::Parsed(r)).ok().unwrap();
    let image = ImageLookup::Found("/i".to_string());
    let reserved = reserve(&mut state, checked, image, 1).ok().unwrap();
    let (at_proxy, _) = registered(&mut state, reserved, created_at_proxy()).ok().unwrap();
    assert_eq!(at_proxy.order().files.len(), 1);
    assert_eq!(at_proxy.order().files[0].content, Some("text".to_string()));
}

#[test]
fn repositories_are_cloned() {
    let mut job = CloneJob::new("u", "r", "/d");
    assert_eq!(job.next().unwrap().line(), "git clone --depth 1 --branch r u /d");
    job.take(&Outcome::Ran(true, vec![], vec![])).unwrap();
    assert_eq!(job.stage, CloneStage::Done);
    assert!(job.next().is_none());

    let mut job = CloneJob::new("u", "r", "/d");
    job.take(&Outcome::Ran(false, vec![], b"no branch".to_vec())).unwrap();
    assert_eq!(job.next().unwrap().line(), "git clone --depth 1 u /d");
    let why = job.take(&Outcome::Ran(false, vec![], b"no repo".to_vec())).err().unwrap();
    assert_eq!(
        why,
        "git clone failed for u at r\nfirst attempt: no branch\nfallback: no repo"
    );
    assert_eq!(
        job.take(&Outcome::NotRun).err().unwrap(),
        "failed to run git clone (fallback)"
    );
    job.take(&Outcome::Ran(true, vec![], vec![])).unwrap();
    let checkout = job.next().unwrap();
    assert_eq!(checkout.line(), "git -C /d checkout r");
    assert!(!checkout.required);
    job.take(&Outcome::NotRun).unwrap();
    assert_eq!(job.stage, CloneStage::Done);

    let mut job = CloneJob::new("u", "r", "/d");
    assert_eq!(job.take(&Outcome::NotRun).err().unwrap(), "failed to run git clone");
}

#[test]
fn images_with_files() {
    let mib: u64 = 1024 * 1024;
    assert_eq!(image_size(0), 4 * mib);
    assert_eq!(image_size(1), 4 * mib);
    assert_eq!(image_size(2 * mib), 4 * mib);
    assert_eq!(image_size(2 * mib + 1), 8 * mib);
    assert_eq!(dir_size(&vec![1, 2, 3]), 6);
    assert_eq!(dir_size(&vec![]), 0);
    assert_eq!(image_name("s"), "ae-vm-files-s.img");
    assert_eq!(mount_point("s"), "/tmp/ae-vm-mount-s");
    assert_eq!(format_command("/i").line(), "mkfs.ext4 -q -F /i");
    let lines: Vec<String> = fill_commands("/i", "/st", "s").iter().map(|c| c.line()).collect();
    assert_eq!(
        lines,
        vec![
            "sudo mount -o loop /i /tmp/ae-vm-mount-s",
            "sudo cp -r /st/. /tmp/ae-vm-mount-s/.",
            "sudo umount /tmp/ae-vm-mount-s",
        ]
    );
}
