use udever::errors::ValidationError;
use udever::rule::build;
use udever::rule::default_group_for;
use udever::rule::default_symlink_name;
use udever::rule::parse_identifier;
use udever::rule::PermissionPolicy;

#[test]
fn build_current_user_only_defaults() {
    let rec = build("046d", "c52b", None, PermissionPolicy::CurrentUserOnly).unwrap();
    assert_eq!(rec.filename, "99-046d-c52b.rules");
    assert_eq!(rec.vendor_id, "046d");
    assert_eq!(rec.product_id, "c52b");
    assert!(rec.symlink_name.is_none());
    assert_eq!(
        rec.render(),
        "SUBSYSTEM==\"usb\", ACTION==\"add\", ATTRS{idVendor}==\"046d\", ATTRS{idProduct}==\"c52b\", TAG+=\"uaccess\"\n"
    );
}

#[test]
fn build_world_read_write_with_symlink() {
    let rec = build(
        "046d",
        "c52b",
        Some("mouse".to_string()),
        PermissionPolicy::WorldReadWrite,
    )
    .unwrap();
    assert_eq!(rec.filename, "99-mouse.rules");
    let text = rec.render();
    assert!(text.ends_with(", MODE=\"0666\", SYMLINK+=\"mouse\"\n"));
    assert_eq!(
        text,
        "SUBSYSTEM==\"usb\", ACTION==\"add\", ATTRS{idVendor}==\"046d\", ATTRS{idProduct}==\"c52b\", MODE=\"0666\", SYMLINK+=\"mouse\"\n"
    );
}

#[test]
fn build_group_scoped_renders_group_and_mode() {
    let rec = build(
        "1a2b",
        "3c4d",
        None,
        PermissionPolicy::GroupScoped {
            group: "uucp".to_string(),
            mode: "0660".to_string(),
        },
    )
    .unwrap();
    assert_eq!(
        rec.render(),
        "SUBSYSTEM==\"usb\", ACTION==\"add\", ATTRS{idVendor}==\"1a2b\", ATTRS{idProduct}==\"3c4d\", GROUP=\"uucp\", MODE=\"0660\"\n"
    );
}

#[test]
fn build_manual_edit_seeds_uaccess_and_splices_symlink() {
    let rec = build(
        "046d",
        "c52b",
        Some("mouse".to_string()),
        PermissionPolicy::ManualEdit,
    )
    .unwrap();
    let text = rec.render();
    assert_eq!(
        text,
        "SUBSYSTEM==\"usb\", ACTION==\"add\", ATTRS{idVendor}==\"046d\", ATTRS{idProduct}==\"c52b\", TAG+=\"uaccess\", SYMLINK+=\"mouse\"\n"
    );
    // one rule per file: a single line, one trailing newline
    assert_eq!(text.matches('\n').count(), 1);
    assert!(text.ends_with('\n'));
}

#[test]
fn rule_text_is_single_subsystem_line() {
    let rec = build("abcd", "0123", None, PermissionPolicy::WorldReadWrite).unwrap();
    let text = rec.render();
    assert!(text.starts_with("SUBSYSTEM==\"usb\", ACTION==\"add\", "));
    assert_eq!(text.matches("SUBSYSTEM==").count(), 1);
    assert_eq!(text.matches('\n').count(), 1);
    assert_eq!(text.chars().last(), Some('\n'));
}

#[test]
fn build_rejects_non_hex_vendor() {
    let r = build("046g", "c52b", None, PermissionPolicy::CurrentUserOnly);
    assert_eq!(r.unwrap_err(), ValidationError::VendorId);
}

#[test]
fn build_rejects_empty_vendor() {
    let r = build("", "c52b", None, PermissionPolicy::CurrentUserOnly);
    assert_eq!(r.unwrap_err(), ValidationError::VendorId);
}

#[test]
fn build_rejects_bad_product() {
    let r = build("046d", "c5:2b", None, PermissionPolicy::CurrentUserOnly);
    assert_eq!(r.unwrap_err(), ValidationError::ProductId);
}

#[test]
fn parse_identifier_splits_at_colon() {
    let (v, p) = parse_identifier("046d:c52b").unwrap();
    assert_eq!(v, "046d");
    assert_eq!(p, "c52b");
}

#[test]
fn parse_identifier_rejects_hyphen_form() {
    // a direct identifier with no colon fails before any file is touched
    let r = parse_identifier("046d-c52b");
    assert_eq!(r.unwrap_err(), ValidationError::IdentifierShape);
}

#[test]
fn parse_identifier_rejects_two_colons() {
    let r = parse_identifier("04:6d:c52b");
    assert_eq!(r.unwrap_err(), ValidationError::IdentifierShape);
}

#[test]
fn build_accepts_uppercase_hex() {
    let rec = build("04FD", "C52B", None, PermissionPolicy::CurrentUserOnly).unwrap();
    assert_eq!(rec.filename, "99-04FD-C52B.rules");
}

#[test]
fn direct_identifier_with_empty_product_fails_validation() {
    // "046d:" splits at its single colon, but the empty product token is
    // rejected before anything is written
    let (v, p) = parse_identifier("046d:").unwrap();
    assert_eq!(v, "046d");
    assert_eq!(p, "");
    let r = build(&v, &p, None, PermissionPolicy::CurrentUserOnly);
    assert_eq!(r.unwrap_err(), ValidationError::ProductId);
}

#[test]
fn default_symlink_name_joins_with_underscore() {
    assert_eq!(default_symlink_name("046d", "c52b"), "046d_c52b");
}

#[test]
fn default_group_follows_os_family() {
    let (group, known) = default_group_for("arch");
    assert_eq!(group, "uucp");
    assert!(known);
    let (group, known) = default_group_for("manjaro");
    assert_eq!(group, "uucp");
    assert!(known);
    let (group, known) = default_group_for("ubuntu");
    assert_eq!(group, "dialout");
    assert!(known);
    let (group, known) = default_group_for("gentoo");
    assert_eq!(group, "dialout");
    assert!(!known);
}
