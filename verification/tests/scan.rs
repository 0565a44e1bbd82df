use suno_core::errors::CliError;
use suno_core::jar::Cookie;
use suno_core::scan::{found_notice, profile_name, store_names, BrowserScan, ScanStep};

fn session() -> Vec<Cookie> {
    vec![Cookie {
        domain: "suno.com".to_string(),
        name: "__client".to_string(),
        value: "tok".to_string(),
    }]
}

#[test]
fn every_profile_is_read_in_order() {
    let counts = [2, 0, 1, 0, 0, 0, 1];
    let mut scan = BrowserScan::new(true);
    let mut read: Vec<(usize, usize)> = Vec::new();
    let mut stores: Vec<usize> = Vec::new();
    loop {
        match scan.next_step() {
            ScanStep::ListProfiles(b) => scan.profiles_listed(counts[b]),
            ScanStep::ReadProfile(b, p) => {
                read.push((b, p));
                assert!(scan.profile_read("P", Ok(vec![])).is_none());
            }
            ScanStep::ReadStore(s) => {
                stores.push(s);
                assert!(scan.store_read(Ok(vec![])).is_none());
            }
            ScanStep::Report => break,
        }
    }
    assert_eq!(read, vec![(0, 0), (0, 1), (2, 0), (6, 0)]);
    assert_eq!(stores, vec![0, 1]);
}

#[test]
fn report_names_what_was_tried() {
    let mut scan = BrowserScan::new(true);
    scan.profiles_listed(2);
    assert!(scan.profile_read("Default", Ok(vec![])).is_none());
    assert!(scan.profile_read("Profile 7", Err("locked".to_string())).is_none());
    for _ in 1..7 {
        scan.profiles_listed(0);
    }
    assert_eq!(scan.next_step(), ScanStep::ReadStore(0));
    assert!(scan.store_read(Ok(vec![])).is_none());
    assert_eq!(scan.next_step(), ScanStep::ReadStore(1));
    assert!(scan.store_read(Err("denied".to_string())).is_none());
    assert_eq!(scan.next_step(), ScanStep::Report);
    match scan.report() {
        CliError::Config(m) => assert_eq!(
            m,
            "No Suno session found in any browser. Log into suno.com first, then retry.\n  Scanned, no Suno cookies: Chrome (Default), Firefox\n  Could not read: Chrome (Profile 7): locked; Safari: denied\n  Manual fallback: copy the Cookie header from suno.com in DevTools, then run `suno auth --cookie '<cookie header>'`"
        ),
        other => panic!("{:?}", other),
    }
}

#[test]
fn empty_report() {
    assert_eq!(
        BrowserScan::new(false).report().message(),
        "No Suno session found in any browser. Log into suno.com first, then retry.\n  Manual fallback: copy the Cookie header from suno.com in DevTools, then run `suno auth --cookie '<cookie header>'`"
    );
}

#[test]
fn session_ends_the_search() {
    let mut scan = BrowserScan::new(false);
    scan.profiles_listed(3);
    assert!(scan.profile_read("A", Ok(vec![])).is_none());
    let auth = scan.profile_read("B", Ok(session())).unwrap();
    assert_eq!(auth.clerk_client_cookie, "tok");
    assert_eq!(scan.next_step(), ScanStep::ReadProfile(0, 1));
    assert_eq!(
        found_notice(&profile_name(0, "B")),
        "Found Suno session in Chrome (B)"
    );
}

#[test]
fn session_in_a_store_ends_the_search() {
    let mut scan = BrowserScan::new(true);
    for _ in 0..7 {
        scan.profiles_listed(0);
    }
    assert!(scan.store_read(Ok(vec![])).is_none());
    assert!(scan.store_read(Ok(session())).is_some());
    assert_eq!(scan.next_step(), ScanStep::ReadStore(1));
}

#[test]
fn only_macos_has_a_second_store() {
    let mut scan = BrowserScan::new(false);
    for _ in 0..7 {
        scan.profiles_listed(0);
    }
    assert!(scan.store_read(Ok(vec![])).is_none());
    assert_eq!(scan.next_step(), ScanStep::Report);
}

type Read = Result<Vec<Cookie>, String>;

fn jar(value: &str) -> Read {
    Ok(vec![Cookie {
        domain: "suno.com".to_string(),
        name: "__client".to_string(),
        value: value.to_string(),
    }])
}

fn search(profiles: &[(usize, Vec<Read>)], stores: &[Read]) -> Result<String, String> {
    let of = |b: usize| profiles.iter().find(|(at, _)| *at == b).map(|(_, p)| p.clone()).unwrap_or_default();
    let mut scan = BrowserScan::new(stores.len() == 2);
    loop {
        let found = match scan.next_step() {
            ScanStep::ListProfiles(b) => {
                scan.profiles_listed(of(b).len());
                None
            }
            ScanStep::ReadProfile(b, p) => scan.profile_read(&p.to_string(), of(b)[p].clone()),
            ScanStep::ReadStore(s) => scan.store_read(stores[s].clone()),
            ScanStep::Report => return Err(scan.report().message()),
        };
        if let Some(auth) = found {
            return Ok(auth.clerk_client_cookie);
        }
    }
}

#[test]
fn first_session_is_given() {
    let none: Read = Ok(vec![]);
    let bad: Read = Err("x".to_string());
    let stores = [jar("f"), jar("s")];
    assert_eq!(
        search(&[(1, vec![none.clone(), jar("b")]), (4, vec![jar("c")])], &stores),
        Ok("b".to_string())
    );
    assert_eq!(search(&[(4, vec![bad.clone(), jar("c")])], &stores), Ok("c".to_string()));
    assert_eq!(search(&[(6, vec![none.clone()])], &stores), Ok("f".to_string()));
    assert_eq!(search(&[], &[bad.clone(), jar("s")]), Ok("s".to_string()));
    let report = search(&[(0, vec![none.clone(), bad.clone()]), (6, vec![bad])], &[none]).unwrap_err();
    assert!(report.contains("Scanned, no Suno cookies: Chrome (0), Firefox\n"));
    assert!(report.contains("Could not read: Chrome (1): x; Opera (0): x\n"));
}

#[test]
fn firefox_goes_before_safari() {
    assert_eq!(store_names(false), vec!["Firefox"]);
    assert_eq!(store_names(true), vec!["Firefox", "Safari"]);
}
