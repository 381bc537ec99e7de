use vstd::prelude::*;

use crate::error::EngineError;
use crate::filter::FilterExpr;
use crate::text::{chars_of, same_chars};

verus! {

/// Object-store options as key/value pairs; a later pair overrides an earlier
/// one with the same key.
pub open spec fn options_view(options: Seq<(String, String)>) -> Seq<(Seq<char>, Seq<char>)> {
    options.map_values(|p: (String, String)| (p.0@, p.1@))
}

/// The value of the last pair with this key.
pub open spec fn option_value(options: Seq<(Seq<char>, Seq<char>)>, key: Seq<char>) -> Option<Seq<char>>
    decreases options.len(),
{
    if options.len() == 0 {
        None
    } else if options.last().0 == key {
        Some(options.last().1)
    } else {
        option_value(options.drop_last(), key)
    }
}

pub open spec fn word_true() -> Seq<char> {
    seq!['t', 'r', 'u', 'e']
}

/// The key that switches a file system on: `fs.<name>.enabled`.
pub open spec fn enabled_key(fs_name: Seq<char>) -> Seq<char> {
    seq!['f', 's', '.'] + fs_name + seq!['.', 'e', 'n', 'a', 'b', 'l', 'e', 'd']
}

/// A file system is on where its `enabled` option reads `true`.
pub open spec fn fs_enabled(options: Seq<(Seq<char>, Seq<char>)>, fs_name: Seq<char>) -> bool {
    option_value(options, enabled_key(fs_name)) == Some(word_true())
}

/// The settings of an S3 object store.
#[derive(Debug)]
pub struct S3Settings {
    pub access_key: Option<String>,
    pub secret: Option<String>,
    pub region: String,
    pub bucket: String,
    pub endpoint: Option<String>,
}

pub open spec fn opt_view(o: Option<String>) -> Option<Seq<char>> {
    match o {
        Some(s) => Some(s@),
        None => None,
    }
}

pub open spec fn s3_key(suffix: Seq<char>) -> Seq<char> {
    seq!['f', 's', '.', 's', '3', '.'] + suffix
}

pub open spec fn s3_option(options: Seq<(Seq<char>, Seq<char>)>, suffix: Seq<char>) -> Option<Seq<char>> {
    option_value(options, s3_key(suffix))
}

/// The options name both the region and the bucket of the S3 store.
pub open spec fn s3_complete(ov: Seq<(Seq<char>, Seq<char>)>) -> bool {
    s3_option(ov, "region"@) is Some && s3_option(ov, "bucket"@) is Some
}

/// Each setting is the option of its name.
pub open spec fn settings_from(st: S3Settings, ov: Seq<(Seq<char>, Seq<char>)>) -> bool {
    &&& Some(st.region@) == s3_option(ov, "region"@)
    &&& Some(st.bucket@) == s3_option(ov, "bucket"@)
    &&& opt_view(st.access_key) == s3_option(ov, "access.key"@)
    &&& opt_view(st.secret) == s3_option(ov, "access.secret"@)
    &&& opt_view(st.endpoint) == s3_option(ov, "endpoint"@)
}

/// The value of the last option with key `key`.
pub fn lookup_option(options: &Vec<(String, String)>, key: &Vec<char>) -> (r: Option<String>)
    ensures
        opt_view(r) == option_value(options_view(options@), key@),
{
    let ghost ov = options_view(options@);
    let mut i: usize = options.len();
    assert(ov.subrange(0, ov.len() as int) =~= ov);
    while i > 0
        invariant
            i <= options@.len(),
            ov == options_view(options@),
            option_value(ov, key@) == option_value(ov.subrange(0, i as int), key@),
        decreases i,
    {
        proof {
            let pre = ov.subrange(0, i as int);
            assert(pre.drop_last() =~= ov.subrange(0, i - 1));
            assert(pre.last() == (options@[i - 1].0@, options@[i - 1].1@));
        }
        let k = chars_of(options[i - 1].0.as_str());
        if same_chars(&k, key) {
            return Some(options[i - 1].1.clone());
        }
        i -= 1;
    }
    None
}

fn key_of(parts: &str, name: &str, tail: &str) -> (r: Vec<char>)
    ensures
        r@ == parts@ + name@ + tail@,
{
    let mut k = chars_of(parts);
    let mut n = chars_of(name);
    let mut t = chars_of(tail);
    k.append(&mut n);
    k.append(&mut t);
    k
}

/// Whether the file system `fs_name` is switched on by the options.
pub fn check_fs_type_enabled(options: &Vec<(String, String)>, fs_name: &str) -> (r: bool)
    ensures
        r == fs_enabled(options_view(options@), fs_name@),
{
    proof {
        reveal_strlit("fs.");
        reveal_strlit(".enabled");
        reveal_strlit("true");
        assert("fs."@ =~= seq!['f', 's', '.']);
        assert(".enabled"@ =~= seq!['.', 'e', 'n', 'a', 'b', 'l', 'e', 'd']);
        assert("true"@ =~= word_true());
    }
    let key = key_of("fs.", fs_name, ".enabled");
    match lookup_option(options, &key) {
        Some(v) => {
            let vc = chars_of(v.as_str());
            let t = chars_of("true");
            same_chars(&vc, &t)
        },
        None => false,
    }
}

fn s3_lookup(options: &Vec<(String, String)>, suffix: &str) -> (r: Option<String>)
    ensures
        opt_view(r) == s3_option(options_view(options@), suffix@),
{
    proof {
        reveal_strlit("fs.s3.");
        reveal_strlit("");
        assert("fs.s3."@ =~= seq!['f', 's', '.', 's', '3', '.']);
    }
    let key = key_of("fs.s3.", suffix, "");
    proof {
        assert(key@ =~= s3_key(suffix@));
    }
    lookup_option(options, &key)
}

/// The S3 store that the options ask for. `None` where S3 is not switched on;
/// a `ConfigurationError` where it is and the region or the bucket is missing.
pub fn s3_settings(options: &Vec<(String, String)>) -> (r: Result<Option<S3Settings>, EngineError>)
    ensures
        !fs_enabled(options_view(options@), seq!['s', '3']) ==> r is Ok && r->Ok_0 is None,
        fs_enabled(options_view(options@), seq!['s', '3']) && !s3_complete(options_view(options@))
            ==> r == Err::<Option<S3Settings>, EngineError>(EngineError::ConfigurationError),
        fs_enabled(options_view(options@), seq!['s', '3']) && s3_complete(options_view(options@))
            ==> r is Ok && r->Ok_0 is Some && settings_from(r->Ok_0->0, options_view(options@)),
{
    proof {
        reveal_strlit("s3");
        assert("s3"@ =~= seq!['s', '3']);
    }
    if !check_fs_type_enabled(options, "s3") {
        return Ok(None);
    }
    let access_key = s3_lookup(options, "access.key");
    let secret = s3_lookup(options, "access.secret");
    let region = s3_lookup(options, "region");
    let bucket = s3_lookup(options, "bucket");
    let endpoint = s3_lookup(options, "endpoint");
    match (region, bucket) {
        (Some(region), Some(bucket)) => Ok(
            Some(S3Settings { access_key, secret, region, bucket, endpoint }),
        ),
        _ => Err(EngineError::ConfigurationError),
    }
}

/// Worker threads of a reader's runtime when none are asked for.
pub const DEFAULT_THREAD_NUM: usize = 2;

/// What a reader scans and how.
pub struct LakeSoulReaderConfig {
    /// Files to read.
    pub files: Vec<String>,
    /// Primary key column names.
    pub primary_keys: Vec<String>,
    /// Columns to select; all where empty.
    pub columns: Vec<String>,
    /// Predicates that rows must meet.
    pub filters: Vec<FilterExpr>,
    pub batch_size: usize,
    /// Object-store options, in the order they were given.
    pub object_store_options: Vec<(String, String)>,
    /// Worker threads of the reader's runtime.
    pub thread_num: usize,
}

/// Builds a `LakeSoulReaderConfig` setting by setting.
pub struct LakeSoulReaderConfigBuilder {
    config: LakeSoulReaderConfig,
}

impl LakeSoulReaderConfigBuilder {
    pub closed spec fn spec_config(&self) -> LakeSoulReaderConfig {
        self.config
    }

    /// No files, columns, filters or options; batch size 0; two threads.
    pub fn new() -> (r: Self)
        ensures
            r.spec_config().files@.len() == 0,
            r.spec_config().primary_keys@.len() == 0,
            r.spec_config().columns@.len() == 0,
            r.spec_config().filters@.len() == 0,
            r.spec_config().batch_size == 0,
            r.spec_config().object_store_options@.len() == 0,
            r.spec_config().thread_num == DEFAULT_THREAD_NUM,
    {
        LakeSoulReaderConfigBuilder {
            config: LakeSoulReaderConfig {
                files: Vec::new(),
                primary_keys: Vec::new(),
                columns: Vec::new(),
                filters: Vec::new(),
                batch_size: 0,
                object_store_options: Vec::new(),
                thread_num: DEFAULT_THREAD_NUM,
            },
        }
    }

    pub fn with_file(self, file: String) -> (r: Self)
        ensures
            r.spec_config() == (LakeSoulReaderConfig {
                files: r.spec_config().files,
                ..self.spec_config()
            }),
            r.spec_config().files@ == self.spec_config().files@.push(file),
    {
        let mut b = self;
        b.config.files.push(file);
        b
    }

    pub fn with_files(self, files: Vec<String>) -> (r: Self)
        ensures
            r.spec_config() == (LakeSoulReaderConfig { files, ..self.spec_config() }),
    {
        let mut b = self;
        b.config.files = files;
        b
    }

    pub fn with_primary_keys(self, pks: Vec<String>) -> (r: Self)
        ensures
            r.spec_config() == (LakeSoulReaderConfig { primary_keys: pks, ..self.spec_config() }),
    {
        let mut b = self;
        b.config.primary_keys = pks;
        b
    }

    pub fn with_column(self, col: String) -> (r: Self)
        ensures
            r.spec_config() == (LakeSoulReaderConfig {
                columns: r.spec_config().columns,
                ..self.spec_config()
            }),
            r.spec_config().columns@ == self.spec_config().columns@.push(col),
    {
        let mut b = self;
        b.config.columns.push(col);
        b
    }

    pub fn with_batch_size(self, batch_size: usize) -> (r: Self)
        ensures
            r.spec_config() == (LakeSoulReaderConfig { batch_size, ..self.spec_config() }),
    {
        let mut b = self;
        b.config.batch_size = batch_size;
        b
    }

    pub fn with_columns(self, cols: Vec<String>) -> (r: Self)
        ensures
            r.spec_config() == (LakeSoulReaderConfig { columns: cols, ..self.spec_config() }),
    {
        let mut b = self;
        b.config.columns = cols;
        b
    }

    pub fn with_filters(self, filters: Vec<FilterExpr>) -> (r: Self)
        ensures
            r.spec_config() == (LakeSoulReaderConfig { filters, ..self.spec_config() }),
    {
        let mut b = self;
        b.config.filters = filters;
        b
    }

    /// Sets an object-store option; it overrides an earlier value of the key.
    pub fn with_object_store_option(self, key: String, value: String) -> (r: Self)
        ensures
            r.spec_config() == (LakeSoulReaderConfig {
                object_store_options: r.spec_config().object_store_options,
                ..self.spec_config()
            }),
            r.spec_config().object_store_options@ == self.spec_config().object_store_options@.push(
                (key, value),
            ),
            option_value(options_view(r.spec_config().object_store_options@), key@) == Some(
                value@,
            ),
    {
        let mut b = self;
        let ghost k = key@;
        let ghost v = value@;
        b.config.object_store_options.push((key, value));
        proof {
            let ov = options_view(b.config.object_store_options@);
            assert(ov.last() == (k, v));
        }
        b
    }

    pub fn with_thread_num(self, thread_num: usize) -> (r: Self)
        ensures
            r.spec_config() == (LakeSoulReaderConfig { thread_num, ..self.spec_config() }),
    {
        let mut b = self;
        b.config.thread_num = thread_num;
        b
    }

    pub fn build(self) -> (r: LakeSoulReaderConfig)
        ensures
            r == self.spec_config(),
    {
        self.config
    }
}

} // verus!
