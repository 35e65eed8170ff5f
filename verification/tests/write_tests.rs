use tedge_write::errors::WriteError;
use tedge_write::perms::{metadata_to_apply, FileMeta, PendingPermissions};
use tedge_write::plan::{plan, NameLookup, Request};

fn request(dest: &str) -> Request {
    Request {
        destination: dest.to_owned(),
        mode: None,
        user: NameLookup::NotRequested,
        group: NameLookup::NotRequested,
        makedirs: false,
    }
}

#[test]
fn existing_destination_keeps_its_metadata() {
    // writing to a pre-existing file with --mode 640 --user alice must leave
    // owner and mode untouched
    let pending = PendingPermissions { uid: Some(1000), gid: None, mode: Some(0o640) };
    let existing = FileMeta { mode: 0o644, uid: 0, gid: 0 };
    let applied = metadata_to_apply(Some(existing), &pending);
    assert_eq!(applied.mode, Some(0o644));
    assert_eq!(applied.uid, Some(0));
    assert_eq!(applied.gid, Some(0));
}

#[test]
fn new_destination_gets_pending_metadata() {
    // writing to a missing file with --mode 640 applies the mode, and only
    // the ids that were given
    let pending = PendingPermissions { uid: None, gid: None, mode: Some(0o640) };
    let applied = metadata_to_apply(None, &pending);
    assert_eq!(applied, pending);
}

#[test]
fn second_write_decides_the_same_metadata() {
    // two runs with identical input: the metadata decided by the second run
    // over the outcome of the first equals the first decision
    let pending = PendingPermissions { uid: Some(20), gid: Some(30), mode: Some(0o640) };
    let first = metadata_to_apply(None, &pending);
    let outcome = FileMeta {
        mode: first.mode.unwrap(),
        uid: first.uid.unwrap(),
        gid: first.gid.unwrap(),
    };
    let second = metadata_to_apply(Some(outcome), &pending);
    assert_eq!(second, first);
}

#[test]
fn plan_for_existing_config_file() {
    // destination pre-existing, flags `--mode 600`
    let mut req = request("/etc/conf.d/app.conf");
    req.mode = Some("600".to_owned());
    let p = plan(req).unwrap();
    assert_eq!(p.target.as_str(), "/etc/conf.d/app.conf");
    assert_eq!(p.pending.mode, Some(0o600));
    assert_eq!(p.pending.uid, None);
    assert_eq!(p.pending.gid, None);
    assert!(!p.makedirs);
    // the pre-existing file keeps mode 0644 and owner root:root
    let existing = FileMeta { mode: 0o644, uid: 0, gid: 0 };
    let applied = metadata_to_apply(Some(existing), &p.pending);
    assert_eq!(applied, PendingPermissions { uid: Some(0), gid: Some(0), mode: Some(0o644) });
}

#[test]
fn plan_for_new_file_with_makedirs() {
    // destination absent, `--makedirs --mode 640 --user svc --group svc`
    let mut req = request("/opt/app/new.conf");
    req.mode = Some("640".to_owned());
    req.user = NameLookup::Found(105);
    req.group = NameLookup::Found(106);
    req.makedirs = true;
    let p = plan(req).unwrap();
    assert_eq!(p.target.as_str(), "/opt/app/new.conf");
    assert!(p.makedirs);
    let own = p.dir_ownership();
    assert_eq!(own.uid, Some(105));
    assert_eq!(own.gid, Some(106));
    let parent = tedge_write::paths::parent_dir(&p.target).unwrap();
    let pres: Vec<String> =
        tedge_write::paths::dir_prefixes(&parent).iter().map(|q| q.as_str().to_owned()).collect();
    assert_eq!(pres, ["/", "/opt", "/opt/app"]);
    let applied = metadata_to_apply(None, &p.pending);
    assert_eq!(applied, PendingPermissions { uid: Some(105), gid: Some(106), mode: Some(0o640) });
}

#[test]
fn plan_rejects_bad_destination_first() {
    let mut req = request("relative/path");
    req.mode = Some("not-octal".to_owned());
    assert_eq!(plan(req).unwrap_err(), WriteError::NotAbsolute);
    let mut req = request("/a/../b");
    req.mode = Some("not-octal".to_owned());
    assert_eq!(plan(req).unwrap_err(), WriteError::NotCanonical);
}

#[test]
fn plan_rejects_bad_mode_before_names() {
    let mut req = request("/etc/app.conf");
    req.mode = Some("9".to_owned());
    req.user = NameLookup::Unknown;
    assert_eq!(plan(req).unwrap_err(), WriteError::InvalidMode);
}

#[test]
fn plan_rejects_unknown_user_then_group() {
    let mut req = request("/etc/app.conf");
    req.user = NameLookup::Unknown;
    req.group = NameLookup::Unknown;
    assert_eq!(plan(req).unwrap_err(), WriteError::UnknownUser);
    let mut req = request("/etc/app.conf");
    req.user = NameLookup::Found(1);
    req.group = NameLookup::Unknown;
    assert_eq!(plan(req).unwrap_err(), WriteError::UnknownGroup);
}

#[test]
fn temp_file_sits_beside_the_destination() {
    let dest = tedge_write::paths::validate("/etc/conf.d/app.conf").unwrap();
    let tmp = tedge_write::paths::temp_path_for(&dest, "4242");
    assert_eq!(tmp, "/etc/conf.d/app.conf.tmp.4242");
    assert_ne!(tmp, dest.as_str());
}

#[test]
fn error_messages_name_the_failure() {
    assert!(WriteError::NotAbsolute.message().contains("absolute"));
    assert!(WriteError::NotCanonical.message().contains("canonical"));
    assert!(WriteError::InvalidMode.message().contains("mode"));
    assert!(WriteError::UnknownUser.message().contains("user"));
    assert!(WriteError::UnknownGroup.message().contains("group"));
}
