use chrono::{Datelike, NaiveDate};
use quant_2::uploader::{
    load_config, object_key, object_present, parse_file_date, ConfigError, ConfirmedSet, EntryOutcome,
    EnvVars, HeadOutcome, PresenceError, StatOutcome, SyncAction, SyncEvent, SyncPass,
};
use quant_2::writer::{tick_file_name, TickFile};

fn day(y: i32, m: u32, d: u32) -> i32 {
    NaiveDate::from_ymd_opt(y, m, d).unwrap().num_days_from_ce()
}

fn vars() -> EnvVars {
    EnvVars {
        s3_bucket: Some("ticks".to_string()),
        s3_prefix: None,
        s3_endpoint_url: None,
        s3_region: None,
        aws_region: None,
        s3_force_path_style: None,
        data_dir: None,
        upload_interval_secs: None,
        retention_days: None,
    }
}

#[test]
fn config_requires_bucket() {
    let mut v = vars();
    v.s3_bucket = None;
    assert_eq!(load_config(&v).unwrap_err(), ConfigError::MissingBucket);
}

#[test]
fn config_defaults() {
    let c = load_config(&vars()).unwrap();
    assert_eq!(c.bucket, "ticks");
    assert_eq!(c.prefix, "");
    assert_eq!(c.endpoint_url, None);
    assert_eq!(c.region, "us-east-1");
    assert!(!c.force_path_style);
    assert_eq!(c.data_dir, "data");
    assert_eq!(c.interval_secs, 300);
    assert_eq!(c.retention_days, 0);
}

#[test]
fn config_reads_every_variable() {
    let v = EnvVars {
        s3_bucket: Some("b".to_string()),
        s3_prefix: Some("/btcusdt/".to_string()),
        s3_endpoint_url: Some("https://fsn1.example.com".to_string()),
        s3_region: Some("fsn1".to_string()),
        aws_region: Some("eu-west-1".to_string()),
        s3_force_path_style: Some("1".to_string()),
        data_dir: Some("/var/ticks".to_string()),
        upload_interval_secs: Some("60".to_string()),
        retention_days: Some("7".to_string()),
    };
    let c = load_config(&v).unwrap();
    assert_eq!(c.prefix, "btcusdt");
    assert_eq!(c.endpoint_url.as_deref(), Some("https://fsn1.example.com"));
    assert_eq!(c.region, "fsn1");
    assert!(c.force_path_style);
    assert_eq!(c.data_dir, "/var/ticks");
    assert_eq!(c.interval_secs, 60);
    assert_eq!(c.retention_days, 7);
}

#[test]
fn config_fallbacks() {
    let mut v = vars();
    v.s3_endpoint_url = Some(String::new());
    v.aws_region = Some("eu-west-1".to_string());
    v.s3_force_path_style = Some("TRUE".to_string());
    v.upload_interval_secs = Some("five".to_string());
    v.retention_days = Some("-3".to_string());
    v.s3_prefix = Some("///".to_string());
    let c = load_config(&v).unwrap();
    assert_eq!(c.endpoint_url, None);
    assert_eq!(c.region, "eu-west-1");
    assert!(!c.force_path_style);
    assert_eq!(c.interval_secs, 300);
    assert_eq!(c.retention_days, -3);
    assert_eq!(c.prefix, "");
    v.s3_force_path_style = Some("true".to_string());
    v.retention_days = Some("1.5".to_string());
    let c = load_config(&v).unwrap();
    assert!(c.force_path_style);
    assert_eq!(c.retention_days, 0);
}

#[test]
fn object_keys() {
    assert_eq!(object_key("", "depth5_tick_20240115.csv"), "depth5_tick_20240115.csv");
    assert_eq!(object_key("btcusdt", "depth5_tick_20240115.csv"), "btcusdt/depth5_tick_20240115.csv");
}

#[test]
fn file_dates() {
    assert_eq!(parse_file_date("depth5_tick_20240115.csv"), Some(day(2024, 1, 15)));
    assert_eq!(parse_file_date("trades_tick_20231231.csv"), Some(day(2023, 12, 31)));
    assert_eq!(parse_file_date("20240229.csv"), Some(day(2024, 2, 29)));
    assert_eq!(parse_file_date("x_20230229.csv"), None); // not a calendar date
    assert_eq!(parse_file_date("x_20241301.csv"), None);
    assert_eq!(parse_file_date("x_2024011.csv"), None);
    assert_eq!(parse_file_date("x_202401155.csv"), None);
    assert_eq!(parse_file_date("x_2024o115.csv"), None);
    assert_eq!(parse_file_date("x_20240115.txt"), None);
    assert_eq!(parse_file_date("x_20240115_.csv"), None);
    assert_eq!(parse_file_date(".csv"), None);
}

#[test]
fn writer_files_carry_their_date() {
    for kind in [TickFile::Depth, TickFile::Trades] {
        let name = tick_file_name(kind, "20240301");
        assert_eq!(parse_file_date(&name), Some(day(2024, 3, 1)));
    }
}

#[test]
fn presence() {
    assert_eq!(object_present(HeadOutcome::Found { content_length: Some(10) }, 10), Ok(true));
    assert_eq!(object_present(HeadOutcome::Found { content_length: Some(9) }, 10), Ok(false));
    assert_eq!(object_present(HeadOutcome::Found { content_length: None }, 10), Ok(false));
    assert_eq!(object_present(HeadOutcome::NotFound, 10), Ok(false));
    assert_eq!(object_present(HeadOutcome::Failed, 10), Err(PresenceError::HeadFailed));
    // the size is compared as the i64 the store reports
    assert_eq!(object_present(HeadOutcome::Found { content_length: Some(-1) }, u64::MAX), Ok(true));
}

#[test]
fn confirmed_set() {
    let mut s = ConfirmedSet::new();
    assert!(!s.contains("a.csv"));
    s.insert("a.csv");
    s.insert("b.csv");
    s.insert("a.csv");
    assert!(s.contains("a.csv") && s.contains("b.csv"));
    s.remove("a.csv");
    assert!(!s.contains("a.csv"));
    assert!(s.contains("b.csv"));
    s.remove("zzz");
    assert!(s.contains("b.csv"));
}

fn entry(name: &str) -> SyncEvent {
    SyncEvent::Entry(Some(name.to_string()))
}

#[test]
fn sync_skips_and_counts_current_files() {
    let today = day(2024, 1, 15);
    let mut c = ConfirmedSet::new();
    let mut p = SyncPass::new(today, "", 0);
    assert_eq!(p.step(&mut c, SyncEvent::Entry(None)), SyncAction::NextEntry(EntryOutcome::NotCsv));
    assert_eq!(p.step(&mut c, entry("notes.txt")), SyncAction::NextEntry(EntryOutcome::NotCsv));
    assert_eq!(p.step(&mut c, entry("backup.csv")), SyncAction::NextEntry(EntryOutcome::Undated));
    assert_eq!(
        p.step(&mut c, entry("depth5_tick_20240115.csv")),
        SyncAction::NextEntry(EntryOutcome::InProgress)
    );
    assert_eq!(
        p.step(&mut c, entry("depth5_tick_20240116.csv")),
        SyncAction::NextEntry(EntryOutcome::InProgress)
    );
    assert_eq!(p.step(&mut c, SyncEvent::ListingEnd), SyncAction::Finish);
    assert!(p.is_finished());
    assert_eq!((p.uploaded(), p.deleted(), p.in_progress()), (0, 0, 2));
}

#[test]
fn sync_uploads_a_missing_finalized_file_once() {
    let today = day(2024, 1, 15);
    let mut c = ConfirmedSet::new();
    let mut p = SyncPass::new(today, "btc", 0);
    assert_eq!(p.step(&mut c, entry("trades_tick_20240114.csv")), SyncAction::Stat);
    assert_eq!(
        p.step(&mut c, SyncEvent::Stat(StatOutcome::File { len: 1234 })),
        SyncAction::Head { key: "btc/trades_tick_20240114.csv".to_string(), len: 1234 }
    );
    assert_eq!(
        p.step(&mut c, SyncEvent::Head(HeadOutcome::NotFound)),
        SyncAction::Put { key: "btc/trades_tick_20240114.csv".to_string() }
    );
    assert_eq!(p.step(&mut c, SyncEvent::Upload(true)), SyncAction::NextEntry(EntryOutcome::Kept));
    assert!(c.contains("trades_tick_20240114.csv"));
    assert_eq!(p.step(&mut c, SyncEvent::ListingEnd), SyncAction::Finish);
    assert_eq!(p.uploaded(), 1);

    // the next pass does not ask the bucket again
    let mut p = SyncPass::new(today, "btc", 0);
    assert_eq!(p.step(&mut c, entry("trades_tick_20240114.csv")), SyncAction::Stat);
    assert_eq!(
        p.step(&mut c, SyncEvent::Stat(StatOutcome::File { len: 1234 })),
        SyncAction::NextEntry(EntryOutcome::Kept)
    );
    assert_eq!(p.uploaded(), 0);
}

#[test]
fn sync_trusts_a_present_object_of_the_same_size() {
    let today = day(2024, 1, 15);
    let mut c = ConfirmedSet::new();
    let mut p = SyncPass::new(today, "", 0);
    p.step(&mut c, entry("depth5_tick_20240110.csv"));
    p.step(&mut c, SyncEvent::Stat(StatOutcome::File { len: 50 }));
    assert_eq!(
        p.step(&mut c, SyncEvent::Head(HeadOutcome::Found { content_length: Some(50) })),
        SyncAction::NextEntry(EntryOutcome::Kept)
    );
    assert!(c.contains("depth5_tick_20240110.csv"));
    // a different size means the file is uploaded again
    p.step(&mut c, entry("depth5_tick_20240111.csv"));
    p.step(&mut c, SyncEvent::Stat(StatOutcome::File { len: 50 }));
    assert_eq!(
        p.step(&mut c, SyncEvent::Head(HeadOutcome::Found { content_length: Some(49) })),
        SyncAction::Put { key: "depth5_tick_20240111.csv".to_string() }
    );
    assert_eq!(p.step(&mut c, SyncEvent::Upload(false)), SyncAction::NextEntry(EntryOutcome::UploadFailed));
    assert!(!c.contains("depth5_tick_20240111.csv"));
}

#[test]
fn sync_failures_move_on() {
    let today = day(2024, 1, 15);
    let mut c = ConfirmedSet::new();
    let mut p = SyncPass::new(today, "", 30);
    p.step(&mut c, entry("depth5_tick_20230101.csv"));
    assert_eq!(
        p.step(&mut c, SyncEvent::Stat(StatOutcome::Failed)),
        SyncAction::NextEntry(EntryOutcome::StatFailed)
    );
    p.step(&mut c, entry("depth5_tick_20230101.csv"));
    assert_eq!(
        p.step(&mut c, SyncEvent::Stat(StatOutcome::NotAFile)),
        SyncAction::NextEntry(EntryOutcome::NotAFile)
    );
    p.step(&mut c, entry("depth5_tick_20230101.csv"));
    p.step(&mut c, SyncEvent::Stat(StatOutcome::File { len: 1 }));
    // a failed HeadObject skips the file, retention included
    assert_eq!(
        p.step(&mut c, SyncEvent::Head(HeadOutcome::Failed)),
        SyncAction::NextEntry(EntryOutcome::HeadFailed)
    );
    assert!(!c.contains("depth5_tick_20230101.csv"));
    assert_eq!((p.uploaded(), p.deleted()), (0, 0));
}

#[test]
fn sync_prunes_only_old_confirmed_files() {
    let today = day(2024, 1, 15);
    let mut c = ConfirmedSet::new();
    let mut p = SyncPass::new(today, "", 3);
    // four days old, not yet in the bucket: uploaded, then removed
    p.step(&mut c, entry("depth5_tick_20240111.csv"));
    p.step(&mut c, SyncEvent::Stat(StatOutcome::File { len: 7 }));
    p.step(&mut c, SyncEvent::Head(HeadOutcome::NotFound));
    assert_eq!(p.step(&mut c, SyncEvent::Upload(true)), SyncAction::Remove);
    assert_eq!(p.step(&mut c, SyncEvent::Remove(true)), SyncAction::NextEntry(EntryOutcome::Deleted));
    assert!(!c.contains("depth5_tick_20240111.csv"));
    // exactly three days old: kept
    p.step(&mut c, entry("depth5_tick_20240112.csv"));
    p.step(&mut c, SyncEvent::Stat(StatOutcome::File { len: 7 }));
    assert_eq!(
        p.step(&mut c, SyncEvent::Head(HeadOutcome::Found { content_length: Some(7) })),
        SyncAction::NextEntry(EntryOutcome::Kept)
    );
    // old and confirmed, but the removal fails: it stays confirmed
    c.insert("trades_tick_20240101.csv");
    p.step(&mut c, entry("trades_tick_20240101.csv"));
    assert_eq!(p.step(&mut c, SyncEvent::Stat(StatOutcome::File { len: 7 })), SyncAction::Remove);
    assert_eq!(
        p.step(&mut c, SyncEvent::Remove(false)),
        SyncAction::NextEntry(EntryOutcome::DeleteFailed)
    );
    assert!(c.contains("trades_tick_20240101.csv"));
    assert_eq!(p.step(&mut c, SyncEvent::ListingEnd), SyncAction::Finish);
    assert_eq!((p.uploaded(), p.deleted(), p.in_progress()), (1, 1, 0));
}

/// Drives one pass over `names`; every file is 10 bytes, the store finds
/// nothing and accepts every upload. Returns the requests made to the store.
fn drive_pass(today: i32, names: &[&str], c: &mut ConfirmedSet) -> Vec<SyncAction> {
    let mut p = SyncPass::new(today, "btc", 0);
    let mut asked = Vec::new();
    for name in names {
        let mut action = p.step(c, entry(name));
        loop {
            let event = match &action {
                SyncAction::NextEntry(_) => break,
                SyncAction::Stat => SyncEvent::Stat(StatOutcome::File { len: 10 }),
                SyncAction::Head { .. } => SyncEvent::Head(HeadOutcome::NotFound),
                SyncAction::Put { .. } => SyncEvent::Upload(true),
                SyncAction::Remove => SyncEvent::Remove(true),
                SyncAction::Finish => unreachable!(),
            };
            if !matches!(action, SyncAction::Stat) {
                asked.push(action.clone());
            }
            action = p.step(c, event);
        }
    }
    assert_eq!(p.step(c, SyncEvent::ListingEnd), SyncAction::Finish);
    asked
}

#[test]
fn second_pass_asks_nothing() {
    let today = day(2024, 1, 15);
    let names = [
        "depth5_tick_20240113.csv",
        "trades_tick_20240114.csv",
        "depth5_tick_20240115.csv",
        "notes.txt",
    ];
    let mut c = ConfirmedSet::new();
    let first = drive_pass(today, &names, &mut c);
    assert_eq!(first.len(), 4); // head and put for each finalized file
    assert!(c.contains("depth5_tick_20240113.csv") && c.contains("trades_tick_20240114.csv"));
    assert!(!c.contains("depth5_tick_20240115.csv"));
    let second = drive_pass(today, &names, &mut c);
    assert!(second.is_empty());
    assert!(c.contains("depth5_tick_20240113.csv") && c.contains("trades_tick_20240114.csv"));
}

#[test]
fn any_dated_name_reads_back_its_date() {
    for prefix in ["", "x", "a_b", "btcusdt_depth5_tick"] {
        let name = format!("{prefix}_20240301.csv");
        assert_eq!(parse_file_date(&name), Some(day(2024, 3, 1)), "{name}");
    }
}
