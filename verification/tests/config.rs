//! The configuration table and its typed lookups.

use gnunet::configuration::{Cfg, CfgGetFilenameError, CfgGetIntError, CfgGetRelativeTimeError};

#[test]
fn empty_has_nothing() {
    let cfg = Cfg::empty();
    assert!(!cfg.contains("gns", "UNIXPATH"));
    assert!(matches!(cfg.get_int("gns", "PORT"), Err(CfgGetIntError::NoSection)));
}

#[test]
fn set_and_get_string() {
    let mut cfg = Cfg::empty();
    assert!(cfg
        .set_string("gns".to_string(), "UNIXPATH".to_string(), "/tmp/gns.sock".to_string())
        .is_none());
    assert_eq!(cfg.get_string("gns", "UNIXPATH").unwrap(), "/tmp/gns.sock");
    let old = cfg.set_string(
        "gns".to_string(),
        "UNIXPATH".to_string(),
        "/run/gns.sock".to_string(),
    );
    assert_eq!(old.unwrap(), "/tmp/gns.sock");
    assert_eq!(cfg.get_string("gns", "UNIXPATH").unwrap(), "/run/gns.sock");
}

#[test]
fn get_int_parses_decimals() {
    let mut cfg = Cfg::empty();
    cfg.set_string("arm".to_string(), "PORT".to_string(), "2087".to_string());
    cfg.set_string("arm".to_string(), "BAD".to_string(), "12a".to_string());
    assert_eq!(cfg.get_int("arm", "PORT").unwrap(), 2087);
    assert!(matches!(cfg.get_int("arm", "BAD"), Err(CfgGetIntError::Parse)));
    assert!(matches!(cfg.get_int("arm", "MISSING"), Err(CfgGetIntError::NoKey)));
    assert!(matches!(cfg.get_int("nope", "PORT"), Err(CfgGetIntError::NoSection)));
}

#[test]
fn get_filename_returns_entry() {
    let mut cfg = Cfg::empty();
    cfg.set_string(
        "identity".to_string(),
        "UNIXPATH".to_string(),
        "/var/run/identity.sock".to_string(),
    );
    assert_eq!(cfg.get_filename("identity", "UNIXPATH").unwrap(), "/var/run/identity.sock");
    assert!(matches!(
        cfg.get_filename("identity", "PORT"),
        Err(CfgGetFilenameError::NoKey)
    ));
}

#[test]
fn get_relative_time_parses() {
    let mut cfg = Cfg::empty();
    cfg.set_string("dht".to_string(), "TIMEOUT".to_string(), "5 s".to_string());
    cfg.set_string("dht".to_string(), "BAD".to_string(), "soon".to_string());
    assert_eq!(cfg.get_relative_time("dht", "TIMEOUT").unwrap().micros(), 5_000_000);
    assert!(matches!(
        cfg.get_relative_time("dht", "BAD"),
        Err(CfgGetRelativeTimeError::Parse { .. })
    ));
}

#[test]
fn merge_prefers_other() {
    let mut base = Cfg::empty();
    base.set_string("gns".to_string(), "UNIXPATH".to_string(), "/tmp/old.sock".to_string());
    base.set_string("gns".to_string(), "KEEP".to_string(), "kept".to_string());
    base.set_string("arm".to_string(), "PORT".to_string(), "1".to_string());
    let mut over = Cfg::empty();
    over.set_string("gns".to_string(), "UNIXPATH".to_string(), "/tmp/new.sock".to_string());
    over.set_string("dht".to_string(), "PORT".to_string(), "2".to_string());
    base.merge(over);
    assert_eq!(base.get_string("gns", "UNIXPATH").unwrap(), "/tmp/new.sock");
    assert_eq!(base.get_string("gns", "KEEP").unwrap(), "kept");
    assert_eq!(base.get_string("arm", "PORT").unwrap(), "1");
    assert_eq!(base.get_string("dht", "PORT").unwrap(), "2");
}
