//! The uploader: configuration, object keys, the dates embedded in file
//! names, and the decisions of one synchronisation pass.
//!
//! Dates are held by their day number counted from 1 January of year 1
//! (`chrono::Datelike::num_days_from_ce`), so that "before today" and "older
//! than N days" are integer comparisons.
use vstd::prelude::*;
use vstd::string::*;

use chrono::Datelike;

use crate::writer::{tick_file_name_of, TickFile};

use crate::text::{
    after_last, after_last_char, all_ascii_digits, ends_with_str, ends_with_text, i64_text_value,
    lemma_after_last_shape, lemma_after_last_suffix, lemma_trim_text_shape, copies, parse_i64, parse_u64, trim_char, trim_text, u64_text_value,
};

verus! {

// ---------------------------------------------------------------------------
// Configuration
// ---------------------------------------------------------------------------

/// The environment variables the uploader reads; `None` where a variable is
/// unset (or not valid Unicode).
#[derive(Clone, Debug)]
pub struct EnvVars {
    /// `S3_BUCKET` (required): target bucket name.
    pub s3_bucket: Option<String>,
    /// `S3_PREFIX`: key prefix, e.g. `btcusdt` gives `btcusdt/<file>.csv`.
    pub s3_prefix: Option<String>,
    /// `S3_ENDPOINT_URL`: e.g. an S3-compatible provider's endpoint.
    pub s3_endpoint_url: Option<String>,
    /// `S3_REGION`.
    pub s3_region: Option<String>,
    /// `AWS_REGION`: the region when `S3_REGION` is unset.
    pub aws_region: Option<String>,
    /// `S3_FORCE_PATH_STYLE`: `true` or `1` selects path-style addressing.
    pub s3_force_path_style: Option<String>,
    /// `DATA_DIR`: directory to upload.
    pub data_dir: Option<String>,
    /// `UPLOAD_INTERVAL_SECS`: scan interval.
    pub upload_interval_secs: Option<String>,
    /// `RETENTION_DAYS`: delete local files older than this; 0 disables.
    pub retention_days: Option<String>,
}

/// The uploader's settings.
#[derive(Clone, Debug, PartialEq, Eq)]
pub struct Config {
    pub bucket: String,
    pub prefix: String,
    pub endpoint_url: Option<String>,
    pub region: String,
    pub force_path_style: bool,
    pub data_dir: String,
    pub interval_secs: u64,
    pub retention_days: i64,
}

/// The configuration cannot be used.
#[derive(Clone, Copy, Debug, PartialEq, Eq, Structural)]
pub enum ConfigError {
    /// `S3_BUCKET` must be set.
    MissingBucket,
}

/// The text of a variable, or the empty text when it is unset.
pub open spec fn text_or_empty(v: Option<String>) -> Seq<char> {
    match v {
        Some(s) => s@,
        None => Seq::empty(),
    }
}

/// The text of a variable, or `default` when it is unset.
pub open spec fn text_or(v: Option<String>, default: Seq<char>) -> Seq<char> {
    match v {
        Some(s) => s@,
        None => default,
    }
}

/// What each setting is made of.
pub open spec fn config_matches(vars: EnvVars, c: Config) -> bool {
    &&& vars.s3_bucket matches Some(b) && c.bucket@ == b@
    &&& c.prefix@ == trim_text(text_or_empty(vars.s3_prefix), '/')
    &&& match vars.s3_endpoint_url {
        Some(u) if u@.len() > 0 => c.endpoint_url matches Some(e) && e@ == u@,
        _ => c.endpoint_url is None,
    }
    &&& c.region@ == match vars.s3_region {
        Some(r) => r@,
        None => text_or(vars.aws_region, "us-east-1"@),
    }
    &&& c.force_path_style == match vars.s3_force_path_style {
        Some(v) => v@ == "true"@ || v@ == "1"@,
        None => false,
    }
    &&& c.data_dir@ == text_or(vars.data_dir, "data"@)
    &&& c.interval_secs == match vars.upload_interval_secs {
        Some(v) => match u64_text_value(v@) {
            Some(n) => n,
            None => 300,
        },
        None => 300,
    }
    &&& c.retention_days == match vars.retention_days {
        Some(v) => match i64_text_value(v@) {
            Some(n) => n,
            None => 0,
        },
        None => 0,
    }
}

fn string_or(v: &Option<String>, default: &str) -> (s: String)
    ensures
        s@ == text_or(*v, default@),
{
    match v {
        Some(s) => s.clone(),
        None => default.to_owned(),
    }
}

/// Reads the settings from the environment variables: fails exactly when
/// `S3_BUCKET` is unset; otherwise every setting is as `config_matches` says
/// (unset or unparsable numbers fall back to their defaults).
pub fn load_config(vars: &EnvVars) -> (r: Result<Config, ConfigError>)
    ensures
        vars.s3_bucket is None ==> r == Err::<Config, ConfigError>(ConfigError::MissingBucket),
        vars.s3_bucket is Some ==> (r matches Ok(c) && config_matches(*vars, c)),
{
    let bucket = match &vars.s3_bucket {
        Some(b) => b.clone(),
        None => return Err(ConfigError::MissingBucket),
    };
    let prefix = match &vars.s3_prefix {
        Some(p) => trim_char(p.as_str(), '/'),
        None => trim_char("", '/'),
    };
    let endpoint_url = match &vars.s3_endpoint_url {
        Some(u) => if u.as_str().is_empty() {
            None
        } else {
            Some(u.clone())
        },
        None => None,
    };
    let region = match &vars.s3_region {
        Some(r) => r.clone(),
        None => string_or(&vars.aws_region, "us-east-1"),
    };
    let force_path_style = match &vars.s3_force_path_style {
        Some(v) => {
            let t = "true".to_owned();
            let one = "1".to_owned();
            *v == t || *v == one
        },
        None => false,
    };
    let data_dir = string_or(&vars.data_dir, "data");
    let interval_secs = match &vars.upload_interval_secs {
        Some(v) => match parse_u64(v.as_str()) {
            Some(n) => n,
            None => 300,
        },
        None => 300,
    };
    let retention_days = match &vars.retention_days {
        Some(v) => match parse_i64(v.as_str()) {
            Some(n) => n,
            None => 0,
        },
        None => 0,
    };
    proof {
        reveal_strlit("");
        assert(""@ =~= Seq::<char>::empty());
    }
    Ok(
        Config {
            bucket,
            prefix,
            endpoint_url,
            region,
            force_path_style,
            data_dir,
            interval_secs,
            retention_days,
        },
    )
}

// ---------------------------------------------------------------------------
// Object keys and file dates
// ---------------------------------------------------------------------------

/// The key of a file in the bucket: its name, under `prefix/` when there is
/// a prefix.
pub open spec fn object_key_of(prefix: Seq<char>, file_name: Seq<char>) -> Seq<char> {
    if prefix.len() == 0 {
        file_name
    } else {
        prefix + "/"@ + file_name
    }
}

/// A key is the file name itself when there is no prefix; otherwise it is
/// the whole prefix, one `/`, then the whole file name.
pub proof fn lemma_object_key_layout(prefix: Seq<char>, file_name: Seq<char>)
    ensures
        prefix.len() == 0 ==> object_key_of(prefix, file_name) == file_name,
        prefix.len() > 0 ==> ({
            let key = object_key_of(prefix, file_name);
            &&& key.len() == prefix.len() + 1 + file_name.len()
            &&& key.subrange(0, prefix.len() as int) == prefix
            &&& key[prefix.len() as int] == '/'
            &&& key.subrange(prefix.len() as int + 1, key.len() as int) == file_name
        }),
{
    reveal_strlit("/");
    if prefix.len() > 0 {
        let key = object_key_of(prefix, file_name);
        assert(key.subrange(0, prefix.len() as int) =~= prefix);
        assert(key.subrange(prefix.len() as int + 1, key.len() as int) =~= file_name);
    }
}

/// The key of `file_name` in the bucket.
pub fn object_key(prefix: &str, file_name: &str) -> (key: String)
    ensures
        key@ == object_key_of(prefix@, file_name@),
{
    if prefix.is_empty() {
        file_name.to_owned()
    } else {
        let mut key = prefix.to_owned();
        key.append("/");
        key.append(file_name);
        key
    }
}

/// The `YYYYMMDD` token of a `..._YYYYMMDD.csv` file name: what follows the
/// last `_` of the name without `.csv`, when it is eight ASCII digits.
pub open spec fn file_date_token(file_name: Seq<char>) -> Option<Seq<char>> {
    if ends_with_text(file_name, ".csv"@) {
        let stem = file_name.subrange(0, file_name.len() - ".csv"@.len());
        let token = after_last(stem, '_');
        if token.len() == 8 && all_ascii_digits(token) {
            Some(token)
        } else {
            None
        }
    } else {
        None
    }
}

/// A file name gives a date token only when it is `<token>.csv` or
/// `<s>_<token>.csv` for some `s`, with eight ASCII digits as its token;
/// and `<token>.csv` alone gives its token.
pub proof fn lemma_file_date_token_shape(name: Seq<char>, date: Seq<char>)
    ensures
        file_date_token(name) matches Some(t) ==> {
            &&& t.len() == 8
            &&& all_ascii_digits(t)
            &&& name == t + ".csv"@ || exists|s: Seq<char>| name == s + "_"@ + t + ".csv"@
        },
        date.len() == 8 && all_ascii_digits(date) ==> file_date_token(date + ".csv"@) == Some(date),
{
    reveal_strlit(".csv");
    reveal_strlit("_");
    if let Some(t) = file_date_token(name) {
        let stem = name.subrange(0, name.len() - ".csv"@.len());
        assert(name =~= stem + ".csv"@);
        lemma_after_last_shape(stem, '_');
        let a = choose|a: Seq<char>| stem == a + after_last(stem, '_') && (a.len() == 0 || a.last() == '_');
        if a.len() == 0 {
            assert(stem =~= t);
        } else {
            let s = a.drop_last();
            assert(a =~= s + "_"@);
            assert(name =~= s + "_"@ + t + ".csv"@);
        }
    }
    if date.len() == 8 && all_ascii_digits(date) {
        let name = date + ".csv"@;
        assert(name.subrange(name.len() - ".csv"@.len(), name.len() as int) =~= ".csv"@);
        assert(name.subrange(0, name.len() - ".csv"@.len()) =~= date);
        assert forall|k: int| 0 <= k < date.len() implies date[k] != '_' by {
            assert(crate::text::is_ascii_digit(date[k]));
        }
        lemma_after_last_suffix(date, '_', 0);
        assert(date.take(0) =~= Seq::<char>::empty());
        assert(date.subrange(0, date.len() as int) =~= date);
        assert(Seq::<char>::empty() + date =~= date);
    }
}

/// The settings that `config_matches` allows: the bucket as given, the
/// prefix without leading or trailing `/` (copies of `/` around it in the
/// variable), an endpoint only when one is given and not empty, `S3_REGION`
/// before `AWS_REGION` before `us-east-1`, path style only for `true` or `1`,
/// `data` as default directory, and 300 seconds and 0 days when those
/// variables are unset or do not parse.
pub proof fn lemma_config_settings(vars: EnvVars, c: Config)
    requires
        config_matches(vars, c),
    ensures
        vars.s3_bucket is Some && c.bucket@ == vars.s3_bucket->0@,
        c.prefix@.len() == 0 || (c.prefix@[0] != '/' && c.prefix@.last() != '/'),
        exists|k: nat, j: nat| text_or_empty(vars.s3_prefix) == copies('/', k) + c.prefix@ + copies('/', j),
        vars.s3_endpoint_url is None ==> c.endpoint_url is None,
        vars.s3_endpoint_url matches Some(u) ==> (u@.len() == 0 <==> c.endpoint_url is None),
        vars.s3_endpoint_url matches Some(u) ==> (u@.len() > 0 ==> c.endpoint_url->0@ == u@),
        vars.s3_region matches Some(r) ==> c.region@ == r@,
        vars.s3_region is None && vars.aws_region is Some ==> c.region@ == vars.aws_region->0@,
        vars.s3_region is None && vars.aws_region is None ==> c.region@ == "us-east-1"@,
        c.force_path_style <==> (vars.s3_force_path_style is Some && (vars.s3_force_path_style->0@
            == "true"@ || vars.s3_force_path_style->0@ == "1"@)),
        vars.data_dir is None ==> c.data_dir@ == "data"@,
        vars.data_dir matches Some(d) ==> c.data_dir@ == d@,
        vars.upload_interval_secs is None ==> c.interval_secs == 300,
        vars.upload_interval_secs matches Some(v) ==> c.interval_secs == if u64_text_value(v@) is Some {
            u64_text_value(v@)->0
        } else {
            300
        },
        vars.retention_days is None ==> c.retention_days == 0,
        vars.retention_days matches Some(v) ==> c.retention_days == if i64_text_value(v@) is Some {
            i64_text_value(v@)->0
        } else {
            0
        },
{
    lemma_trim_text_shape(text_or_empty(vars.s3_prefix), '/');
}

/// The day number of the date that `chrono` reads from `token` with the
/// format `%Y%m%d`, or `None` when it reads no valid date.
pub uninterp spec fn ymd_day_number(token: Seq<char>) -> Option<i32>;

/// Calls `chrono::NaiveDate::parse_from_str(token, "%Y%m%d")` and gives the
/// date it returns as its day number (`Datelike::num_days_from_ce`). The
/// contract claims only that the result is a function of the text; which
/// texts are calendar dates, and their day numbers, are left to `chrono`.
#[verifier::external_body]
fn parse_ymd(token: &str) -> (day: Option<i32>)
    ensures
        day == ymd_day_number(token@),
{
    match chrono::NaiveDate::parse_from_str(token, "%Y%m%d") {
        Ok(date) => Some(date.num_days_from_ce()),
        Err(_) => None,
    }
}

/// The date (as a day number) embedded in a file name, if any.
pub open spec fn file_date_of(file_name: Seq<char>) -> Option<i32> {
    match file_date_token(file_name) {
        Some(token) => ymd_day_number(token),
        None => None,
    }
}

/// Parses the `YYYYMMDD` date embedded in a `..._YYYYMMDD.csv` file name.
pub fn parse_file_date(file_name: &str) -> (day: Option<i32>)
    ensures
        day == file_date_of(file_name@),
{
    if !ends_with_str(file_name, ".csv") {
        return None;
    }
    proof {
        reveal_strlit(".csv");
    }
    let n = file_name.unicode_len();
    let stem = file_name.substring_char(0, n - 4);
    let token = after_last_char(stem, '_');
    assert(".csv"@.len() == 4);
    assert(stem@ == file_name@.subrange(0, file_name@.len() - ".csv"@.len()));
    assert(token@ == after_last(stem@, '_'));
    if token.unicode_len() != 8 {
        return None;
    }
    let mut i: usize = 0;
    while i < 8
        invariant
            token@.len() == 8,
            i <= 8,
            ends_with_text(file_name@, ".csv"@),
            token@ == after_last(file_name@.subrange(0, file_name@.len() - ".csv"@.len()), '_'),
            forall|j: int| 0 <= j < i ==> crate::text::is_ascii_digit(#[trigger] token@[j]),
        decreases 8 - i,
    {
        let c = token.get_char(i);
        if !('0' <= c && c <= '9') {
            assert(!crate::text::is_ascii_digit(token@[i as int]));
            assert(!all_ascii_digits(token@));
            assert(file_date_token(file_name@) is None);
            return None;
        }
        i = i + 1;
    }
    parse_ymd(token)
}

// ---------------------------------------------------------------------------
// Presence in the bucket
// ---------------------------------------------------------------------------

/// The answer to a HeadObject request.
#[derive(Clone, Copy, Debug, PartialEq, Eq, Structural)]
pub enum HeadOutcome {
    /// The object exists; its size when the store reported one.
    Found { content_length: Option<i64> },
    /// The store reported that the object does not exist.
    NotFound,
    /// Any other failure.
    Failed,
}

/// HeadObject failed for another reason than a missing object.
#[derive(Clone, Copy, Debug, PartialEq, Eq, Structural)]
pub enum PresenceError {
    HeadFailed,
}

/// Whether the object is in the bucket with the given size.
pub open spec fn presence_of(outcome: HeadOutcome, len: u64) -> Result<bool, PresenceError> {
    match outcome {
        HeadOutcome::Found { content_length } => Ok(content_length == Some(len as i64)),
        HeadOutcome::NotFound => Ok(false),
        HeadOutcome::Failed => Err(PresenceError::HeadFailed),
    }
}

/// An object counts as present exactly when HeadObject found it with the
/// local size; a failed HeadObject is an error, and anything else (another
/// size, no size, no object) means absent.
pub proof fn lemma_presence(outcome: HeadOutcome, len: u64)
    ensures
        (presence_of(outcome, len) == Ok::<bool, PresenceError>(true)) <==> (outcome
            == HeadOutcome::Found { content_length: Some(len as i64) }),
        (presence_of(outcome, len) == Err::<bool, PresenceError>(PresenceError::HeadFailed)) <==> (
        outcome == HeadOutcome::Failed),
        outcome != HeadOutcome::Failed && outcome != (HeadOutcome::Found {
            content_length: Some(len as i64),
        }) ==> presence_of(outcome, len) == Ok::<bool, PresenceError>(false),
{
}

/// Whether the object already exists in the bucket with the given size.
pub fn object_present(outcome: HeadOutcome, len: u64) -> (r: Result<bool, PresenceError>)
    ensures
        r == presence_of(outcome, len),
{
    match outcome {
        HeadOutcome::Found { content_length } => match content_length {
            Some(n) => Ok(n == len as i64),
            None => Ok(false),
        },
        HeadOutcome::NotFound => Ok(false),
        HeadOutcome::Failed => Err(PresenceError::HeadFailed),
    }
}

// ---------------------------------------------------------------------------
// Files known to be in the bucket
// ---------------------------------------------------------------------------

/// The names of the local files known to be in the bucket. Kept across
/// passes so that a confirmed file is not looked up again.
pub struct ConfirmedSet {
    names: Vec<String>,
}

impl View for ConfirmedSet {
    type V = Set<Seq<char>>;

    closed spec fn view(&self) -> Set<Seq<char>> {
        Set::new(
            |t: Seq<char>|
                exists|i: int| #![trigger self.names@[i]] 0 <= i < self.names@.len() && self.names@[i]@ == t,
        )
    }
}

impl ConfirmedSet {
    /// No name is held twice.
    pub closed spec fn wf(&self) -> bool {
        forall|i: int, j: int|
            #![trigger self.names@[i], self.names@[j]]
            0 <= i < j < self.names@.len() ==> self.names@[i]@ != self.names@[j]@
    }

    pub fn new() -> (s: ConfirmedSet)
        ensures
            s.wf(),
            s@ == Set::<Seq<char>>::empty(),
    {
        let s = ConfirmedSet { names: Vec::new() };
        assert(s@ =~= Set::<Seq<char>>::empty());
        s
    }

    fn find(&self, name: &str) -> (r: Option<usize>)
        ensures
            r matches Some(i) ==> i < self.names@.len() && self.names@[i as int]@ == name@,
            r is None ==> !self@.contains(name@),
    {
        let key = name.to_owned();
        let mut i: usize = 0;
        while i < self.names.len()
            invariant
                key@ == name@,
                i <= self.names@.len(),
                forall|j: int| 0 <= j < i ==> self.names@[j]@ != name@,
            decreases self.names@.len() - i,
        {
            if self.names[i] == key {
                return Some(i);
            }
            i = i + 1;
        }
        None
    }

    /// Whether `name` is known to be in the bucket.
    pub fn contains(&self, name: &str) -> (r: bool)
        ensures
            r == self@.contains(name@),
    {
        match self.find(name) {
            Some(i) => {
                assert(self.names@[i as int]@ == name@);
                true
            },
            None => false,
        }
    }

    /// Records that `name` is in the bucket.
    pub fn insert(&mut self, name: &str)
        requires
            old(self).wf(),
        ensures
            final(self).wf(),
            final(self)@ == old(self)@.insert(name@),
    {
        let found = self.find(name);
        if found.is_none() {
            let ghost before = self.names@;
            self.names.push(name.to_owned());
            assert(self.names@[before.len() as int]@ == name@);
            assert(self@ =~= old(self)@.insert(name@)) by {
                assert forall|t: Seq<char>| self@.contains(t) == old(self)@.insert(name@).contains(t) by {
                    if self@.contains(t) {
                        let i = choose|i: int| 0 <= i < self.names@.len() && self.names@[i]@ == t;
                        if i < before.len() {
                            assert(before[i] == self.names@[i]);
                        }
                    }
                    if old(self)@.contains(t) {
                        let i = choose|i: int| 0 <= i < before.len() && before[i]@ == t;
                        assert(self.names@[i] == before[i]);
                    }
                }
            }
        } else {
            let i = found.unwrap();
            assert(self.names@[i as int]@ == name@);
            assert(old(self)@.contains(name@));
            assert(self@ =~= old(self)@.insert(name@));
        }
    }

    /// Forgets `name`.
    pub fn remove(&mut self, name: &str)
        requires
            old(self).wf(),
        ensures
            final(self).wf(),
            final(self)@ == old(self)@.remove(name@),
    {
        match self.find(name) {
            None => {
                assert(self@ =~= old(self)@.remove(name@));
            },
            Some(k) => {
                let ghost before = self.names@;
                self.names.remove(k);
                assert forall|t: Seq<char>| self@.contains(t) == old(self)@.remove(name@).contains(t) by {
                    if self@.contains(t) {
                        let i = choose|i: int| 0 <= i < self.names@.len() && self.names@[i]@ == t;
                        if i < k {
                            assert(self.names@[i] == before[i]);
                        } else {
                            assert(self.names@[i] == before[i + 1]);
                        }
                    }
                    if old(self)@.remove(name@).contains(t) {
                        let i = choose|i: int| 0 <= i < before.len() && before[i]@ == t;
                        if i < k {
                            assert(self.names@[i] == before[i]);
                        } else if i > k {
                            assert(self.names@[i - 1] == before[i]);
                        }
                    }
                }
                assert(self@ =~= old(self)@.remove(name@));
                assert forall|i: int, j: int|
                    #![trigger self.names@[i], self.names@[j]]
                    0 <= i < j < self.names@.len() implies self.names@[i]@ != self.names@[j]@ by {
                    let bi = if i < k { i } else { i + 1 };
                    let bj = if j < k { j } else { j + 1 };
                    assert(self.names@[i] == before[bi]);
                    assert(self.names@[j] == before[bj]);
                    assert(before[bi]@ != before[bj]@);
                }
            },
        }
    }
}

// ---------------------------------------------------------------------------
// One synchronisation pass
// ---------------------------------------------------------------------------

/// The metadata of a directory entry.
#[derive(Clone, Copy, Debug, PartialEq, Eq, Structural)]
pub enum StatOutcome {
    /// A regular file of `len` bytes.
    File { len: u64 },
    /// Something else than a regular file.
    NotAFile,
    /// The metadata could not be read.
    Failed,
}

/// What the pass learns from the outside world.
#[derive(Clone, Debug, PartialEq, Eq)]
pub enum SyncEvent {
    /// The next directory entry: its file name, or `None` when the name is
    /// not valid Unicode.
    Entry(Option<String>),
    /// The listing ended, or failed: the pass ends.
    ListingEnd,
    /// The metadata of the current entry.
    Stat(StatOutcome),
    /// The answer to HeadObject for the current file.
    Head(HeadOutcome),
    /// Whether PutObject of the current file succeeded.
    Upload(bool),
    /// Whether removing the current local file succeeded.
    Remove(bool),
}

/// What happened to an entry, reported when the pass moves to the next one.
#[derive(Clone, Copy, Debug, PartialEq, Eq, Structural)]
pub enum EntryOutcome {
    /// Not a `.csv` file (or its name is not Unicode): skipped silently.
    NotCsv,
    /// No parseable date in the name: skipped with a warning.
    Undated,
    /// Today's or a future file: still being written, left alone.
    InProgress,
    /// Not a regular file: skipped.
    NotAFile,
    /// Its metadata could not be read.
    StatFailed,
    /// HeadObject failed.
    HeadFailed,
    /// PutObject failed.
    UploadFailed,
    /// In the bucket; the local copy stays.
    Kept,
    /// In the bucket, and the local copy was removed.
    Deleted,
    /// In the bucket, but removing the local copy failed.
    DeleteFailed,
}

/// What the pass asks for next.
#[derive(Clone, Debug, PartialEq, Eq)]
pub enum SyncAction {
    /// Read the next directory entry.
    NextEntry(EntryOutcome),
    /// Read the current entry's metadata.
    Stat,
    /// Ask the bucket whether the object `key` exists with `len` bytes.
    Head { key: String, len: u64 },
    /// Upload the current file as `key`.
    Put { key: String },
    /// Remove the current local file.
    Remove,
    /// The pass is over.
    Finish,
}

/// Where the pass stands.
enum SyncPhase {
    Listing,
    Stat { name: String, date: i32 },
    Head { name: String, date: i32, len: u64 },
    Upload { name: String, date: i32, len: u64 },
    Remove { name: String, date: i32 },
    Done,
}

/// The state of one pass.
pub struct SyncPass {
    today: i32,
    prefix: String,
    retention_days: i64,
    uploaded: u32,
    deleted: u32,
    in_progress: u32,
    phase: SyncPhase,
}

pub enum EventModel {
    Entry(Option<Seq<char>>),
    ListingEnd,
    Stat(StatOutcome),
    Head(HeadOutcome),
    Upload(bool),
    Remove(bool),
}

pub enum ActionModel {
    NextEntry(EntryOutcome),
    Stat,
    Head { key: Seq<char>, len: u64 },
    Put { key: Seq<char> },
    Remove,
    Finish,
}

pub enum PhaseModel {
    Listing,
    Stat { name: Seq<char>, date: i32 },
    Head { name: Seq<char>, date: i32, len: u64 },
    Upload { name: Seq<char>, date: i32, len: u64 },
    Remove { name: Seq<char>, date: i32 },
    Done,
}

pub struct SyncModel {
    pub today: i32,
    pub prefix: Seq<char>,
    pub retention_days: i64,
    pub uploaded: int,
    pub deleted: int,
    pub in_progress: int,
    pub phase: PhaseModel,
}

impl View for SyncEvent {
    type V = EventModel;

    open spec fn view(&self) -> EventModel {
        match self {
            SyncEvent::Entry(Some(n)) => EventModel::Entry(Some(n@)),
            SyncEvent::Entry(None) => EventModel::Entry(None),
            SyncEvent::ListingEnd => EventModel::ListingEnd,
            SyncEvent::Stat(o) => EventModel::Stat(*o),
            SyncEvent::Head(o) => EventModel::Head(*o),
            SyncEvent::Upload(ok) => EventModel::Upload(*ok),
            SyncEvent::Remove(ok) => EventModel::Remove(*ok),
        }
    }
}

impl View for SyncAction {
    type V = ActionModel;

    open spec fn view(&self) -> ActionModel {
        match self {
            SyncAction::NextEntry(o) => ActionModel::NextEntry(*o),
            SyncAction::Stat => ActionModel::Stat,
            SyncAction::Head { key, len } => ActionModel::Head { key: key@, len: *len },
            SyncAction::Put { key } => ActionModel::Put { key: key@ },
            SyncAction::Remove => ActionModel::Remove,
            SyncAction::Finish => ActionModel::Finish,
        }
    }
}

spec fn phase_model(p: SyncPhase) -> PhaseModel {
    match p {
        SyncPhase::Listing => PhaseModel::Listing,
        SyncPhase::Stat { name, date } => PhaseModel::Stat { name: name@, date },
        SyncPhase::Head { name, date, len } => PhaseModel::Head { name: name@, date, len },
        SyncPhase::Upload { name, date, len } => PhaseModel::Upload { name: name@, date, len },
        SyncPhase::Remove { name, date } => PhaseModel::Remove { name: name@, date },
        SyncPhase::Done => PhaseModel::Done,
    }
}

impl View for SyncPass {
    type V = SyncModel;

    closed spec fn view(&self) -> SyncModel {
        SyncModel {
            today: self.today,
            prefix: self.prefix@,
            retention_days: self.retention_days,
            uploaded: self.uploaded as int,
            deleted: self.deleted as int,
            in_progress: self.in_progress as int,
            phase: phase_model(self.phase),
        }
    }
}

/// The file a phase is about, with its date, if any.
pub open spec fn phase_file(p: PhaseModel) -> Option<(Seq<char>, i32)> {
    match p {
        PhaseModel::Stat { name, date } => Some((name, date)),
        PhaseModel::Head { name, date, .. } => Some((name, date)),
        PhaseModel::Upload { name, date, .. } => Some((name, date)),
        PhaseModel::Remove { name, date } => Some((name, date)),
        _ => None,
    }
}

/// A pass only ever works on a finalized file: one whose name carries a date
/// before today. Its counters fit their 32 bits.
pub open spec fn sync_wf(m: SyncModel) -> bool {
    &&& 0 <= m.uploaded <= u32::MAX
    &&& 0 <= m.deleted <= u32::MAX
    &&& 0 <= m.in_progress <= u32::MAX
    &&& (phase_file(m.phase) matches Some((name, date)) ==> {
        &&& file_date_of(name) == Some(date)
        &&& date < m.today
    })
}

/// The events each phase waits for.
pub open spec fn sync_expects(p: PhaseModel, e: EventModel) -> bool {
    match p {
        PhaseModel::Listing => e is Entry || e is ListingEnd,
        PhaseModel::Stat { .. } => e is Stat,
        PhaseModel::Head { .. } => e is Head,
        PhaseModel::Upload { .. } => e is Upload,
        PhaseModel::Remove { .. } => e is Remove,
        PhaseModel::Done => false,
    }
}

/// The counters can still grow.
pub open spec fn sync_has_room(m: SyncModel) -> bool {
    m.uploaded < u32::MAX && m.deleted < u32::MAX && m.in_progress < u32::MAX
}

pub open spec fn with_phase(m: SyncModel, p: PhaseModel) -> SyncModel {
    SyncModel { phase: p, ..m }
}

/// Once a finalized file is known to be in the bucket: its local copy is
/// removed when retention is on, the file is older than `retention_days`
/// days and it is confirmed; otherwise the pass moves on.
pub open spec fn retention_step(m: SyncModel, c: Set<Seq<char>>, name: Seq<char>, date: i32) -> (
    SyncModel,
    Set<Seq<char>>,
    ActionModel,
) {
    if m.retention_days > 0 && m.today - date > m.retention_days && c.contains(name) {
        (with_phase(m, PhaseModel::Remove { name, date }), c, ActionModel::Remove)
    } else {
        (with_phase(m, PhaseModel::Listing), c, ActionModel::NextEntry(EntryOutcome::Kept))
    }
}

/// How a pass reacts to one event: its next state, the next set of files
/// known to be in the bucket, and what it asks for.
pub open spec fn sync_next(m: SyncModel, c: Set<Seq<char>>, e: EventModel) -> (
    SyncModel,
    Set<Seq<char>>,
    ActionModel,
) {
    match m.phase {
        PhaseModel::Listing => match e {
            EventModel::Entry(Some(name)) => if !ends_with_text(name, ".csv"@) {
                (m, c, ActionModel::NextEntry(EntryOutcome::NotCsv))
            } else {
                match file_date_of(name) {
                    None => (m, c, ActionModel::NextEntry(EntryOutcome::Undated)),
                    Some(date) => if date >= m.today {
                        (
                            SyncModel { in_progress: m.in_progress + 1, ..m },
                            c,
                            ActionModel::NextEntry(EntryOutcome::InProgress),
                        )
                    } else {
                        (with_phase(m, PhaseModel::Stat { name, date }), c, ActionModel::Stat)
                    },
                }
            },
            EventModel::Entry(None) => (m, c, ActionModel::NextEntry(EntryOutcome::NotCsv)),
            _ => (with_phase(m, PhaseModel::Done), c, ActionModel::Finish),
        },
        PhaseModel::Stat { name, date } => match e {
            EventModel::Stat(StatOutcome::File { len }) => if c.contains(name) {
                retention_step(m, c, name, date)
            } else {
                (
                    with_phase(m, PhaseModel::Head { name, date, len }),
                    c,
                    ActionModel::Head { key: object_key_of(m.prefix, name), len },
                )
            },
            EventModel::Stat(StatOutcome::NotAFile) => (
                with_phase(m, PhaseModel::Listing),
                c,
                ActionModel::NextEntry(EntryOutcome::NotAFile),
            ),
            _ => (
                with_phase(m, PhaseModel::Listing),
                c,
                ActionModel::NextEntry(EntryOutcome::StatFailed),
            ),
        },
        PhaseModel::Head { name, date, len } => match e {
            EventModel::Head(h) => match presence_of(h, len) {
                Ok(true) => retention_step(m, c.insert(name), name, date),
                Ok(false) => (
                    with_phase(m, PhaseModel::Upload { name, date, len }),
                    c,
                    ActionModel::Put { key: object_key_of(m.prefix, name) },
                ),
                Err(_) => (
                    with_phase(m, PhaseModel::Listing),
                    c,
                    ActionModel::NextEntry(EntryOutcome::HeadFailed),
                ),
            },
            _ => (m, c, ActionModel::Finish),
        },
        PhaseModel::Upload { name, date, .. } => match e {
            EventModel::Upload(true) => retention_step(
                SyncModel { uploaded: m.uploaded + 1, ..m },
                c.insert(name),
                name,
                date,
            ),
            _ => (
                with_phase(m, PhaseModel::Listing),
                c,
                ActionModel::NextEntry(EntryOutcome::UploadFailed),
            ),
        },
        PhaseModel::Remove { name, .. } => match e {
            EventModel::Remove(true) => (
                SyncModel { deleted: m.deleted + 1, phase: PhaseModel::Listing, ..m },
                c.remove(name),
                ActionModel::NextEntry(EntryOutcome::Deleted),
            ),
            _ => (
                with_phase(m, PhaseModel::Listing),
                c,
                ActionModel::NextEntry(EntryOutcome::DeleteFailed),
            ),
        },
        PhaseModel::Done => (m, c, ActionModel::Finish),
    }
}

impl SyncPass {
    pub open spec fn wf(&self) -> bool {
        sync_wf(self@)
    }

    /// A pass over the files of `today` (a day number) and before, with keys
    /// under `prefix` and local copies kept for `retention_days` days
    /// (forever when it is not positive). It starts by reading an entry.
    pub fn new(today: i32, prefix: &str, retention_days: i64) -> (pass: SyncPass)
        ensures
            pass.wf(),
            pass@ == (SyncModel {
                today,
                prefix: prefix@,
                retention_days,
                uploaded: 0,
                deleted: 0,
                in_progress: 0,
                phase: PhaseModel::Listing,
            }),
    {
        SyncPass {
            today,
            prefix: prefix.to_owned(),
            retention_days,
            uploaded: 0,
            deleted: 0,
            in_progress: 0,
            phase: SyncPhase::Listing,
        }
    }

    fn retention(&mut self, confirmed: &ConfirmedSet, name: String, date: i32) -> (action:
        SyncAction)
        requires
            sync_wf(old(self)@),
            file_date_of(name@) == Some(date),
            date < old(self)@.today,
        ensures
            sync_wf(final(self)@),
            (final(self)@, confirmed@, action@) == retention_step(
                old(self)@,
                confirmed@,
                name@,
                date,
            ),
    {
        let age: i64 = (self.today as i64) - (date as i64);
        if self.retention_days > 0 && age > self.retention_days && confirmed.contains(
            name.as_str(),
        ) {
            self.phase = SyncPhase::Remove { name, date };
            SyncAction::Remove
        } else {
            self.phase = SyncPhase::Listing;
            SyncAction::NextEntry(EntryOutcome::Kept)
        }
    }

    /// Reacts to one event: updates the pass and the set of confirmed files,
    /// and says what to do next.
    pub fn step(&mut self, confirmed: &mut ConfirmedSet, event: SyncEvent) -> (action: SyncAction)
        requires
            old(self).wf(),
            old(confirmed).wf(),
            sync_expects(old(self)@.phase, event@),
            sync_has_room(old(self)@),
        ensures
            final(self).wf(),
            final(confirmed).wf(),
            (final(self)@, final(confirmed)@, action@) == sync_next(
                old(self)@,
                old(confirmed)@,
                event@,
            ),
    {
        let mut phase = SyncPhase::Listing;
        std::mem::swap(&mut phase, &mut self.phase);
        match phase {
            SyncPhase::Listing => match event {
                SyncEvent::Entry(Some(name)) => {
                    if !ends_with_str(name.as_str(), ".csv") {
                        return SyncAction::NextEntry(EntryOutcome::NotCsv);
                    }
                    match parse_file_date(name.as_str()) {
                        None => SyncAction::NextEntry(EntryOutcome::Undated),
                        Some(date) => {
                            if date >= self.today {
                                self.in_progress = self.in_progress + 1;
                                SyncAction::NextEntry(EntryOutcome::InProgress)
                            } else {
                                self.phase = SyncPhase::Stat { name, date };
                                SyncAction::Stat
                            }
                        },
                    }
                },
                SyncEvent::Entry(None) => SyncAction::NextEntry(EntryOutcome::NotCsv),
                _ => {
                    self.phase = SyncPhase::Done;
                    SyncAction::Finish
                },
            },
            SyncPhase::Stat { name, date } => match event {
                SyncEvent::Stat(StatOutcome::File { len }) => {
                    if confirmed.contains(name.as_str()) {
                        self.retention(confirmed, name, date)
                    } else {
                        let key = object_key(self.prefix.as_str(), name.as_str());
                        self.phase = SyncPhase::Head { name, date, len };
                        SyncAction::Head { key, len }
                    }
                },
                SyncEvent::Stat(StatOutcome::NotAFile) => SyncAction::NextEntry(
                    EntryOutcome::NotAFile,
                ),
                _ => SyncAction::NextEntry(EntryOutcome::StatFailed),
            },
            SyncPhase::Head { name, date, len } => match event {
                SyncEvent::Head(h) => match object_present(h, len) {
                    Ok(true) => {
                        confirmed.insert(name.as_str());
                        self.retention(confirmed, name, date)
                    },
                    Ok(false) => {
                        let key = object_key(self.prefix.as_str(), name.as_str());
                        self.phase = SyncPhase::Upload { name, date, len };
                        SyncAction::Put { key }
                    },
                    Err(_) => SyncAction::NextEntry(EntryOutcome::HeadFailed),
                },
                _ => {
                    self.phase = SyncPhase::Head { name, date, len };
                    SyncAction::Finish
                },
            },
            SyncPhase::Upload { name, date, len } => match event {
                SyncEvent::Upload(true) => {
                    self.uploaded = self.uploaded + 1;
                    confirmed.insert(name.as_str());
                    self.retention(confirmed, name, date)
                },
                _ => SyncAction::NextEntry(EntryOutcome::UploadFailed),
            },
            SyncPhase::Remove { name, date } => match event {
                SyncEvent::Remove(true) => {
                    self.deleted = self.deleted + 1;
                    confirmed.remove(name.as_str());
                    SyncAction::NextEntry(EntryOutcome::Deleted)
                },
                _ => SyncAction::NextEntry(EntryOutcome::DeleteFailed),
            },
            SyncPhase::Done => {
                self.phase = SyncPhase::Done;
                SyncAction::Finish
            },
        }
    }

    /// Whether the pass is over.
    pub fn is_finished(&self) -> (r: bool)
        ensures
            r == (self@.phase is Done),
    {
        match self.phase {
            SyncPhase::Done => true,
            _ => false,
        }
    }

    /// Files uploaded so far in this pass.
    pub fn uploaded(&self) -> (n: u32)
        ensures
            n == self@.uploaded,
    {
        self.uploaded
    }

    /// Local copies removed so far in this pass.
    pub fn deleted(&self) -> (n: u32)
        ensures
            n == self@.deleted,
    {
        self.deleted
    }

    /// Files skipped so far because they are still being written.
    pub fn in_progress(&self) -> (n: u32)
        ensures
            n == self@.in_progress,
    {
        self.in_progress
    }
}

// ---------------------------------------------------------------------------
// What every step of a pass keeps
// ---------------------------------------------------------------------------

/// The step after a finalized file is known to be in the bucket (it was
/// already confirmed, HeadObject found it with the same size, or its upload
/// succeeded) asks to remove the local copy exactly when retention is on and
/// the file is older than `retention_days` days; otherwise the pass moves on
/// keeping the file. In the last two cases the file becomes confirmed.
pub proof fn lemma_retention_decision(
    m: SyncModel,
    c: Set<Seq<char>>,
    name: Seq<char>,
    date: i32,
    len: u64,
)
    ensures
        ({
            let prune = m.retention_days > 0 && m.today - date > m.retention_days;
            let (m1, c1, a) = sync_next(
                with_phase(m, PhaseModel::Stat { name, date }),
                c,
                EventModel::Stat(StatOutcome::File { len }),
            );
            c.contains(name) ==> {
                &&& c1 == c
                &&& prune ==> a == ActionModel::Remove && m1.phase == (PhaseModel::Remove { name, date })
                &&& !prune ==> a == ActionModel::NextEntry(EntryOutcome::Kept) && m1.phase is Listing
            }
        }),
        ({
            let prune = m.retention_days > 0 && m.today - date > m.retention_days;
            let (m1, c1, a) = sync_next(
                with_phase(m, PhaseModel::Head { name, date, len }),
                c,
                EventModel::Head(HeadOutcome::Found { content_length: Some(len as i64) }),
            );
            &&& c1 == c.insert(name)
            &&& prune ==> a == ActionModel::Remove && m1.phase == (PhaseModel::Remove { name, date })
            &&& !prune ==> a == ActionModel::NextEntry(EntryOutcome::Kept) && m1.phase is Listing
        }),
        ({
            let prune = m.retention_days > 0 && m.today - date > m.retention_days;
            let (m1, c1, a) = sync_next(
                with_phase(m, PhaseModel::Upload { name, date, len }),
                c,
                EventModel::Upload(true),
            );
            &&& c1 == c.insert(name)
            &&& m1.uploaded == m.uploaded + 1
            &&& prune ==> a == ActionModel::Remove && m1.phase == (PhaseModel::Remove { name, date })
            &&& !prune ==> a == ActionModel::NextEntry(EntryOutcome::Kept) && m1.phase is Listing
        }),
{
    assert(c.insert(name).contains(name));
}

/// What a pass does with a directory entry: a name that is not a `.csv`
/// file, or has no date, is skipped; a finalized file is looked at; an
/// entry ends nothing and changes no confirmed file. The end of the listing
/// ends the pass.
pub proof fn lemma_sync_entries(m: SyncModel, c: Set<Seq<char>>, name: Seq<char>)
    requires
        m.phase is Listing,
    ensures
        ({
            let (m1, c1, a) = sync_next(m, c, EventModel::Entry(Some(name)));
            &&& c1 == c
            &&& !ends_with_text(name, ".csv"@) ==> a == ActionModel::NextEntry(EntryOutcome::NotCsv)
                && m1 == m
            &&& ends_with_text(name, ".csv"@) && file_date_of(name) is None ==> a
                == ActionModel::NextEntry(EntryOutcome::Undated) && m1 == m
            &&& ends_with_text(name, ".csv"@) && file_date_of(name) is Some && file_date_of(name)->0
                < m.today ==> a == ActionModel::Stat && m1 == with_phase(
                m,
                PhaseModel::Stat { name, date: file_date_of(name)->0 },
            )
        }),
        sync_next(m, c, EventModel::Entry(None)) == (m, c, ActionModel::NextEntry(
            EntryOutcome::NotCsv,
        )),
        sync_next(m, c, EventModel::ListingEnd) == (with_phase(m, PhaseModel::Done), c, ActionModel::Finish),
{
}

/// What a pass does with the metadata, HeadObject answer, upload result and
/// removal result of the file it is looking at.
pub proof fn lemma_sync_answers(m: SyncModel, c: Set<Seq<char>>, name: Seq<char>, date: i32, len: u64)
    ensures
        ({
            let (m1, c1, a) = sync_next(
                with_phase(m, PhaseModel::Stat { name, date }),
                c,
                EventModel::Stat(StatOutcome::File { len }),
            );
            !c.contains(name) ==> {
                &&& a == ActionModel::Head { key: object_key_of(m.prefix, name), len }
                &&& m1 == with_phase(m, PhaseModel::Head { name, date, len })
                &&& c1 == c
            }
        }),
        sync_next(
            with_phase(m, PhaseModel::Stat { name, date }),
            c,
            EventModel::Stat(StatOutcome::NotAFile),
        ) == (with_phase(m, PhaseModel::Listing), c, ActionModel::NextEntry(EntryOutcome::NotAFile)),
        sync_next(
            with_phase(m, PhaseModel::Stat { name, date }),
            c,
            EventModel::Stat(StatOutcome::Failed),
        ) == (with_phase(m, PhaseModel::Listing), c, ActionModel::NextEntry(EntryOutcome::StatFailed)),
        forall|h: HeadOutcome|
            h == HeadOutcome::NotFound || (h matches HeadOutcome::Found { content_length }
                && content_length != Some(len as i64)) ==> #[trigger] sync_next(
                with_phase(m, PhaseModel::Head { name, date, len }),
                c,
                EventModel::Head(h),
            ) == (
                with_phase(m, PhaseModel::Upload { name, date, len }),
                c,
                ActionModel::Put { key: object_key_of(m.prefix, name) },
            ),
        sync_next(
            with_phase(m, PhaseModel::Head { name, date, len }),
            c,
            EventModel::Head(HeadOutcome::Failed),
        ) == (with_phase(m, PhaseModel::Listing), c, ActionModel::NextEntry(EntryOutcome::HeadFailed)),
        sync_next(
            with_phase(m, PhaseModel::Upload { name, date, len }),
            c,
            EventModel::Upload(false),
        ) == (with_phase(m, PhaseModel::Listing), c, ActionModel::NextEntry(EntryOutcome::UploadFailed)),
        sync_next(
            with_phase(m, PhaseModel::Remove { name, date }),
            c,
            EventModel::Remove(true),
        ) == (
            SyncModel { deleted: m.deleted + 1, phase: PhaseModel::Listing, ..m },
            c.remove(name),
            ActionModel::NextEntry(EntryOutcome::Deleted),
        ),
        sync_next(
            with_phase(m, PhaseModel::Remove { name, date }),
            c,
            EventModel::Remove(false),
        ) == (with_phase(m, PhaseModel::Listing), c, ActionModel::NextEntry(EntryOutcome::DeleteFailed)),
{
}

/// A pass only works on finalized files: every step keeps the file it is
/// about (and so every Stat, Head, Put and Remove request) to one whose name
/// carries a date before today.
pub proof fn lemma_sync_only_finalized(m: SyncModel, c: Set<Seq<char>>, e: EventModel)
    requires
        sync_wf(m),
        sync_expects(m.phase, e),
        sync_has_room(m),
    ensures
        sync_wf(sync_next(m, c, e).0),
{
}

/// Today's file (and any future-dated one) is still being written: the pass
/// counts it as in progress and asks for nothing about it.
pub proof fn lemma_sync_leaves_current_files(m: SyncModel, c: Set<Seq<char>>, name: Seq<char>)
    requires
        m.phase is Listing,
        ends_with_text(name, ".csv"@),
        file_date_of(name) matches Some(date) && date >= m.today,
    ensures
        ({
            let (m1, c1, a) = sync_next(m, c, EventModel::Entry(Some(name)));
            &&& c1 == c
            &&& a == ActionModel::NextEntry(EntryOutcome::InProgress)
            &&& m1 == SyncModel { in_progress: m.in_progress + 1, ..m }
        }),
{
}

/// Unuploaded data is never destroyed: a local copy is removed only when the
/// file is known to be in the bucket, retention is on and the file is older
/// than `retention_days` days.
pub proof fn lemma_sync_removes_only_confirmed(m: SyncModel, c: Set<Seq<char>>, e: EventModel)
    requires
        sync_wf(m),
        sync_expects(m.phase, e),
    ensures
        ({
            let (m1, c1, a) = sync_next(m, c, e);
            a is Remove ==> {
                &&& m1.phase matches PhaseModel::Remove { name, date }
                &&& c1.contains(name)
                &&& m.retention_days > 0
                &&& m.today - date > m.retention_days
                &&& date < m.today
            }
        }),
{
}

/// A file joins the set of confirmed files only when HeadObject found it with
/// the same size, or when its upload succeeded.
pub proof fn lemma_sync_confirms_on_evidence(
    m: SyncModel,
    c: Set<Seq<char>>,
    e: EventModel,
    x: Seq<char>,
)
    ensures
        ({
            let (m1, c1, a) = sync_next(m, c, e);
            c1.contains(x) && !c.contains(x) ==> {
                ||| {
                    &&& m.phase matches PhaseModel::Head { name, len, .. }
                    &&& x == name
                    &&& e matches EventModel::Head(h)
                    &&& presence_of(h, len) == Ok::<bool, PresenceError>(true)
                }
                ||| {
                    &&& m.phase matches PhaseModel::Upload { name, .. }
                    &&& x == name
                    &&& e == EventModel::Upload(true)
                }
            }
        }),
{
}

/// A file leaves the set of confirmed files only when its local copy has
/// just been removed.
pub proof fn lemma_sync_forgets_only_removed(
    m: SyncModel,
    c: Set<Seq<char>>,
    e: EventModel,
    x: Seq<char>,
)
    ensures
        ({
            let (m1, c1, a) = sync_next(m, c, e);
            c.contains(x) && !c1.contains(x) ==> {
                &&& m.phase matches PhaseModel::Remove { name, .. }
                &&& x == name
                &&& e == EventModel::Remove(true)
            }
        }),
{
}

/// A finalized file is uploaded once: the bucket is asked about a file only
/// when it is not yet confirmed, and the file is uploaded only when HeadObject
/// did not find it with the same size; both use its object key.
pub proof fn lemma_sync_uploads_only_missing(m: SyncModel, c: Set<Seq<char>>, e: EventModel)
    requires
        sync_wf(m),
        sync_expects(m.phase, e),
    ensures
        ({
            let (m1, c1, a) = sync_next(m, c, e);
            &&& a matches ActionModel::Head { key, len } ==> {
                &&& m.phase matches PhaseModel::Stat { name, date }
                &&& !c.contains(name)
                &&& e == EventModel::Stat(StatOutcome::File { len })
                &&& key == object_key_of(m.prefix, name)
                &&& date < m.today
            }
            &&& a matches ActionModel::Put { key } ==> {
                &&& m.phase matches PhaseModel::Head { name, date, len }
                &&& e matches EventModel::Head(h)
                &&& presence_of(h, len) == Ok::<bool, PresenceError>(false)
                &&& key == object_key_of(m.prefix, name)
                &&& date < m.today
                &&& c1 == c
            }
        }),
{
}

/// The counters count what happened: an upload that succeeded, a local copy
/// removed, a file skipped as in progress.
pub proof fn lemma_sync_counts(m: SyncModel, c: Set<Seq<char>>, e: EventModel)
    requires
        sync_expects(m.phase, e),
    ensures
        ({
            let (m1, c1, a) = sync_next(m, c, e);
            let up: int = if m.phase is Upload && e == EventModel::Upload(true) { 1 } else { 0 };
            let del: int = if m.phase is Remove && e == EventModel::Remove(true) { 1 } else { 0 };
            let cur: int = if a == ActionModel::NextEntry(EntryOutcome::InProgress) { 1 } else { 0 };
            &&& m1.uploaded == m.uploaded + up
            &&& m1.deleted == m.deleted + del
            &&& m1.in_progress == m.in_progress + cur
        }),
{
}

/// What a step shows to be in the bucket: the file that HeadObject found with
/// the same size, or whose upload succeeded.
pub open spec fn sync_evidence(m: SyncModel, e: EventModel) -> Set<Seq<char>> {
    match m.phase {
        PhaseModel::Head { name, len, .. } => match e {
            EventModel::Head(h) => if presence_of(h, len) == Ok::<bool, PresenceError>(true) {
                set![name]
            } else {
                Set::empty()
            },
            _ => Set::empty(),
        },
        PhaseModel::Upload { name, .. } => if e == EventModel::Upload(true) {
            set![name]
        } else {
            Set::empty()
        },
        _ => Set::empty(),
    }
}

/// A pass's reaction to a sequence of events: its last state, the last set
/// of confirmed files, the actions it asked for, and every file the events
/// showed to be in the bucket.
pub open spec fn sync_run(m: SyncModel, c: Set<Seq<char>>, events: Seq<EventModel>) -> (
    SyncModel,
    Set<Seq<char>>,
    Seq<ActionModel>,
    Set<Seq<char>>,
)
    decreases events.len(),
{
    if events.len() == 0 {
        (m, c, Seq::empty(), Set::empty())
    } else {
        let (m1, c1, a) = sync_next(m, c, events[0]);
        let (last, c_last, actions, shown) = sync_run(m1, c1, events.drop_first());
        (last, c_last, seq![a] + actions, sync_evidence(m, events[0]).union(shown))
    }
}

/// Over any run of a pass (and so over any number of passes), the set of
/// confirmed files only holds files that were confirmed before, or that the
/// bucket was shown to hold during the run. Since a local copy is removed
/// only when it is confirmed, no file is removed that the bucket was never
/// shown to hold.
pub proof fn lemma_sync_run_confirms_on_evidence(
    m: SyncModel,
    c: Set<Seq<char>>,
    events: Seq<EventModel>,
)
    ensures
        ({
            let (last, c_last, actions, shown) = sync_run(m, c, events);
            c_last.subset_of(c.union(shown))
        }),
    decreases events.len(),
{
    if events.len() > 0 {
        let e = events[0];
        let (m1, c1, a) = sync_next(m, c, e);
        lemma_sync_run_confirms_on_evidence(m1, c1, events.drop_first());
        let (last, c_last, actions, shown) = sync_run(m1, c1, events.drop_first());
        assert forall|x: Seq<char>| c1.contains(x) implies c.union(sync_evidence(m, e)).contains(
            x,
        ) by {
            lemma_sync_confirms_on_evidence(m, c, e, x);
        }
        assert forall|x: Seq<char>| c_last.contains(x) implies c.union(
            sync_evidence(m, e).union(shown),
        ).contains(x) by {
            assert(c1.union(shown).contains(x));
        }
    }
}

// ---------------------------------------------------------------------------
// Whole passes over a directory
// ---------------------------------------------------------------------------

/// How the world answers the requests a pass makes about the file `name`:
/// its metadata, HeadObject, PutObject and the removal of the local copy.
pub open spec fn world_answer(
    world: spec_fn(Seq<char>) -> (StatOutcome, HeadOutcome, bool, bool),
    name: Seq<char>,
    a: ActionModel,
) -> Option<EventModel> {
    match a {
        ActionModel::Stat => Some(EventModel::Stat(world(name).0)),
        ActionModel::Head { .. } => Some(EventModel::Head(world(name).1)),
        ActionModel::Put { .. } => Some(EventModel::Upload(world(name).2)),
        ActionModel::Remove => Some(EventModel::Remove(world(name).3)),
        _ => None,
    }
}

/// A pass handling one directory entry: it reacts to `e`, and goes on as long
/// as it asks something of the world about the entry (at most `fuel` more
/// times). The result is its state, the confirmed set, and its requests.
pub open spec fn sync_entry(
    m: SyncModel,
    c: Set<Seq<char>>,
    world: spec_fn(Seq<char>) -> (StatOutcome, HeadOutcome, bool, bool),
    name: Seq<char>,
    e: EventModel,
    fuel: nat,
) -> (SyncModel, Set<Seq<char>>, Seq<ActionModel>)
    decreases fuel,
{
    let (m1, c1, a) = sync_next(m, c, e);
    if fuel > 0 && world_answer(world, name, a) is Some {
        let (m2, c2, actions) = sync_entry(
            m1,
            c1,
            world,
            name,
            world_answer(world, name, a)->0,
            (fuel - 1) as nat,
        );
        (m2, c2, seq![a] + actions)
    } else {
        (m1, c1, seq![a])
    }
}

pub open spec fn entry_name(entry: Option<Seq<char>>) -> Seq<char> {
    match entry {
        Some(n) => n,
        None => Seq::empty(),
    }
}

/// A whole pass over a directory listing: each entry in turn, then the end
/// of the listing.
pub open spec fn sync_listing(
    m: SyncModel,
    c: Set<Seq<char>>,
    world: spec_fn(Seq<char>) -> (StatOutcome, HeadOutcome, bool, bool),
    entries: Seq<Option<Seq<char>>>,
) -> (SyncModel, Set<Seq<char>>, Seq<ActionModel>)
    decreases entries.len(),
{
    if entries.len() == 0 {
        let (m1, c1, a) = sync_next(m, c, EventModel::ListingEnd);
        (m1, c1, seq![a])
    } else {
        let (m1, c1, acts1) = sync_entry(
            m,
            c,
            world,
            entry_name(entries[0]),
            EventModel::Entry(entries[0]),
            4,
        );
        let (m2, c2, acts2) = sync_listing(m1, c1, world, entries.drop_first());
        (m2, c2, acts1 + acts2)
    }
}

/// A pass that starts on `today` with keys under `prefix`.
pub open spec fn sync_start(today: i32, prefix: Seq<char>, retention_days: i64) -> SyncModel {
    SyncModel {
        today,
        prefix,
        retention_days,
        uploaded: 0,
        deleted: 0,
        in_progress: 0,
        phase: PhaseModel::Listing,
    }
}

/// A finalized regular `.csv` file: the files a pass uploads.
pub open spec fn finalized_file(today: i32, name: Seq<char>, stat: StatOutcome) -> bool {
    &&& ends_with_text(name, ".csv"@)
    &&& file_date_of(name) matches Some(d) && d < today
    &&& stat is File
}

/// An entry that names a finalized regular `.csv` file.
pub open spec fn finalized_entry(
    today: i32,
    entry: Option<Seq<char>>,
    world: spec_fn(Seq<char>) -> (StatOutcome, HeadOutcome, bool, bool),
) -> bool {
    entry is Some && finalized_file(today, entry_name(entry), world(entry_name(entry)).0)
}

/// A request to the object store or to remove a local file.
pub open spec fn asks_store(a: ActionModel) -> bool {
    a is Head || a is Put || a is Remove
}

/// The store answers every HeadObject and accepts every upload.
pub open spec fn store_succeeds(
    world: spec_fn(Seq<char>) -> (StatOutcome, HeadOutcome, bool, bool),
) -> bool {
    forall|n: Seq<char>| !((#[trigger] world(n)).1 is Failed) && world(n).2
}

pub open spec fn same_settings(m1: SyncModel, m: SyncModel) -> bool {
    m1.today == m.today && m1.prefix == m.prefix && m1.retention_days == m.retention_days
}

proof fn lemma_entry_first_pass(
    m: SyncModel,
    c: Set<Seq<char>>,
    world: spec_fn(Seq<char>) -> (StatOutcome, HeadOutcome, bool, bool),
    entry: Option<Seq<char>>,
)
    requires
        m.phase is Listing,
        m.retention_days <= 0,
        store_succeeds(world),
    ensures
        ({
            let (m1, c1, acts) = sync_entry(m, c, world, entry_name(entry), EventModel::Entry(entry), 4);
            &&& m1.phase is Listing
            &&& same_settings(m1, m)
            &&& c1 == if finalized_entry(m.today, entry, world) {
                c.insert(entry_name(entry))
            } else {
                c
            }
        }),
{
    reveal_with_fuel(sync_entry, 5);
    if let Some(n) = entry {
        let w = world(n);
        assert(!(w.1 is Failed) && w.2);
        if finalized_file(m.today, n, w.0) {
            assert(c.insert(n).insert(n) =~= c.insert(n));
            if c.contains(n) {
                assert(c.insert(n) =~= c);
            }
        }
    }
}

proof fn lemma_entry_second_pass(
    m: SyncModel,
    c: Set<Seq<char>>,
    world: spec_fn(Seq<char>) -> (StatOutcome, HeadOutcome, bool, bool),
    entry: Option<Seq<char>>,
)
    requires
        m.phase is Listing,
        m.retention_days <= 0,
        finalized_entry(m.today, entry, world) ==> c.contains(entry_name(entry)),
    ensures
        ({
            let (m1, c1, acts) = sync_entry(m, c, world, entry_name(entry), EventModel::Entry(entry), 4);
            &&& m1.phase is Listing
            &&& same_settings(m1, m)
            &&& c1 == c
            &&& forall|i: int| 0 <= i < acts.len() ==> !asks_store(#[trigger] acts[i])
        }),
{
    reveal_with_fuel(sync_entry, 5);
}

proof fn lemma_listing_first_pass(
    m: SyncModel,
    c: Set<Seq<char>>,
    world: spec_fn(Seq<char>) -> (StatOutcome, HeadOutcome, bool, bool),
    entries: Seq<Option<Seq<char>>>,
)
    requires
        m.phase is Listing,
        m.retention_days <= 0,
        store_succeeds(world),
    ensures
        ({
            let (m1, c1, acts) = sync_listing(m, c, world, entries);
            &&& c.subset_of(c1)
            &&& forall|i: int|
                0 <= i < entries.len() && finalized_entry(m.today, #[trigger] entries[i], world)
                    ==> c1.contains(entry_name(entries[i]))
        }),
    decreases entries.len(),
{
    if entries.len() > 0 {
        let (m1, c1, acts1) = sync_entry(
            m,
            c,
            world,
            entry_name(entries[0]),
            EventModel::Entry(entries[0]),
            4,
        );
        lemma_entry_first_pass(m, c, world, entries[0]);
        lemma_listing_first_pass(m1, c1, world, entries.drop_first());
        let (m2, c2, acts2) = sync_listing(m1, c1, world, entries.drop_first());
        assert forall|i: int|
            0 <= i < entries.len() && finalized_entry(m.today, #[trigger] entries[i], world)
                implies c2.contains(entry_name(entries[i])) by {
            if i > 0 {
                assert(entries[i] == entries.drop_first()[i - 1]);
            }
        }
    }
}

proof fn lemma_listing_second_pass(
    m: SyncModel,
    c: Set<Seq<char>>,
    world: spec_fn(Seq<char>) -> (StatOutcome, HeadOutcome, bool, bool),
    entries: Seq<Option<Seq<char>>>,
)
    requires
        m.phase is Listing,
        m.retention_days <= 0,
        forall|i: int|
            0 <= i < entries.len() && finalized_entry(m.today, #[trigger] entries[i], world)
                ==> c.contains(entry_name(entries[i])),
    ensures
        ({
            let (m1, c1, acts) = sync_listing(m, c, world, entries);
            &&& c1 == c
            &&& forall|i: int| 0 <= i < acts.len() ==> !asks_store(#[trigger] acts[i])
        }),
    decreases entries.len(),
{
    if entries.len() > 0 {
        let (m1, c1, acts1) = sync_entry(
            m,
            c,
            world,
            entry_name(entries[0]),
            EventModel::Entry(entries[0]),
            4,
        );
        assert(entries[0] == entries[0]);
        lemma_entry_second_pass(m, c, world, entries[0]);
        assert forall|i: int|
            0 <= i < entries.drop_first().len() && finalized_entry(
                m1.today,
                #[trigger] entries.drop_first()[i],
                world,
            ) implies c1.contains(entry_name(entries.drop_first()[i])) by {
            assert(entries.drop_first()[i] == entries[i + 1]);
        }
        lemma_listing_second_pass(m1, c1, world, entries.drop_first());
        let (m2, c2, acts2) = sync_listing(m1, c1, world, entries.drop_first());
        assert forall|i: int| 0 <= i < (acts1 + acts2).len() implies !asks_store(
            #[trigger] (acts1 + acts2)[i],
        ) by {
            if i < acts1.len() {
                assert((acts1 + acts2)[i] == acts1[i]);
            } else {
                assert((acts1 + acts2)[i] == acts2[i - acts1.len()]);
            }
        }
    }
}

/// A finalized file is uploaded once: after a pass in which the store
/// answered every HeadObject and accepted every upload, with retention off,
/// a second pass over the same directory on the same day asks nothing of the
/// store, removes nothing, and leaves the set of confirmed files as it was.
pub proof fn lemma_second_pass_asks_nothing(
    today: i32,
    prefix: Seq<char>,
    retention_days: i64,
    c0: Set<Seq<char>>,
    world: spec_fn(Seq<char>) -> (StatOutcome, HeadOutcome, bool, bool),
    entries: Seq<Option<Seq<char>>>,
)
    requires
        retention_days <= 0,
        store_succeeds(world),
    ensures
        ({
            let m0 = sync_start(today, prefix, retention_days);
            let (m1, c1, acts1) = sync_listing(m0, c0, world, entries);
            let (m2, c2, acts2) = sync_listing(m0, c1, world, entries);
            &&& c2 == c1
            &&& forall|i: int| 0 <= i < acts2.len() ==> !asks_store(#[trigger] acts2[i])
        }),
{
    let m0 = sync_start(today, prefix, retention_days);
    lemma_listing_first_pass(m0, c0, world, entries);
    let (m1, c1, acts1) = sync_listing(m0, c0, world, entries);
    lemma_listing_second_pass(m0, c1, world, entries);
}

/// Any name of the form `<s>_<YYYYMMDD>.csv`, whatever `s` is, reads back its
/// eight-digit token, and so the date that `chrono` reads from it.
pub proof fn lemma_dated_file_name(s: Seq<char>, date: Seq<char>)
    requires
        date.len() == 8,
        all_ascii_digits(date),
    ensures
        file_date_token(s + "_"@ + date + ".csv"@) == Some(date),
        file_date_of(s + "_"@ + date + ".csv"@) == ymd_day_number(date),
{
    reveal_strlit(".csv");
    reveal_strlit("_");
    let head = s + "_"@;
    let name = head + date + ".csv"@;
    let stem = head + date;
    assert(name.subrange(name.len() - ".csv"@.len(), name.len() as int) =~= ".csv"@);
    assert(name.subrange(0, name.len() - ".csv"@.len()) =~= stem);
    assert forall|k: int| head.len() <= k < stem.len() implies stem[k] != '_' by {
        assert(stem[k] == date[k - head.len()]);
        assert(crate::text::is_ascii_digit(date[k - head.len()]));
    }
    lemma_after_last_suffix(stem, '_', head.len() as int);
    assert(stem.take(head.len() as int) =~= head);
    assert(head.last() == '_');
    assert(after_last(head, '_') =~= Seq::<char>::empty());
    assert(stem.subrange(head.len() as int, stem.len() as int) =~= date);
    assert(after_last(stem, '_') =~= date);
}

/// The files the collector writes carry their day: the date the writer puts
/// in a file's name is the one the uploader reads back from it.
pub proof fn lemma_tick_file_date(kind: TickFile, date: Seq<char>)
    requires
        date.len() == 8,
        all_ascii_digits(date),
    ensures
        file_date_token(tick_file_name_of(kind, date)) == Some(date),
        file_date_of(tick_file_name_of(kind, date)) == ymd_day_number(date),
{
    reveal_strlit("_");
    reveal_strlit("depth5_tick_");
    reveal_strlit("depth5_tick");
    reveal_strlit("trades_tick_");
    reveal_strlit("trades_tick");
    let s = match kind {
        TickFile::Depth => "depth5_tick"@,
        TickFile::Trades => "trades_tick"@,
    };
    let head = match kind {
        TickFile::Depth => "depth5_tick_"@,
        TickFile::Trades => "trades_tick_"@,
    };
    assert(head =~= s + "_"@);
    lemma_dated_file_name(s, date);
}

} // verus!
