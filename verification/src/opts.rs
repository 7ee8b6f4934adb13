//! Run options: output selection, compression levels, and the rules that
//! validate them before any decoding starts.
use vstd::prelude::*;

verus! {

use vstd::string::StrSliceExecFns;
use crate::flags::str_eq;

/// The largest index at which `c` occurs in `s`, or -1 when it does not.
pub open spec fn last_index_of(s: Seq<char>, c: char) -> int
    decreases s.len(),
{
    if s.len() == 0 {
        -1
    } else if s[s.len() - 1] == c {
        s.len() - 1
    } else {
        last_index_of(s.drop_last(), c)
    }
}

/// The extension of a path: the text after the last dot of the last
/// component, provided that dot is not the component's first character.
pub open spec fn ext_of(s: Seq<char>) -> Option<Seq<char>> {
    let dot = last_index_of(s, '.');
    if dot > last_index_of(s, '/') + 1 {
        Some(s.subrange(dot + 1, s.len() as int))
    } else {
        None
    }
}

/// Where `last_index_of` can point: into `s`, or nowhere.
proof fn lemma_last_index_of_bounds(s: Seq<char>, c: char)
    ensures
        -1 <= last_index_of(s, c) < s.len(),
    decreases s.len(),
{
    if s.len() > 0 && s[s.len() - 1] != c {
        lemma_last_index_of_bounds(s.drop_last(), c);
    }
}

/// Find the last occurrence of `c` in `s`.
fn rfind_char(s: &str, c: char) -> (r: Option<usize>)
    ensures
        match r {
            Some(i) => last_index_of(s@, c) == i as int,
            None => last_index_of(s@, c) == -1,
        },
{
    let n = s.unicode_len();
    let mut i = n;
    proof {
        assert(s@.take(n as int) =~= s@);
    }
    while i > 0
        invariant
            i <= n,
            n as int == s@.len(),
            last_index_of(s@, c) == last_index_of(s@.take(i as int), c),
        decreases i,
    {
        proof {
            assert(s@.take(i as int).len() == i as int);
            assert(s@.take(i as int)[i - 1] == s@[i - 1]);
            assert(s@.take(i as int).drop_last() =~= s@.take(i - 1));
        }
        if s.get_char(i - 1) == c {
            return Some(i - 1);
        }
        i -= 1;
    }
    None
}

/// Whether the path's extension is one of the two given names.
fn ext_is_either(path: &str, a: &str, b: &str) -> (r: bool)
    ensures
        r == (ext_of(path@) == Some(a@) || ext_of(path@) == Some(b@)),
{
    let n = path.unicode_len();
    proof {
        lemma_last_index_of_bounds(path@, '.');
        lemma_last_index_of_bounds(path@, '/');
    }
    let dot = match rfind_char(path, '.') {
        None => {
            return false;
        },
        Some(d) => d,
    };
    let comp: usize = match rfind_char(path, '/') {
        None => 0,
        Some(sl) => sl + 1,
    };
    if dot <= comp {
        return false;
    }
    let ext = path.substring_char(dot + 1, n);
    str_eq(ext, a) || str_eq(ext, b)
}

/// Whether the path names a gzip-compressed file by extension.
pub fn is_gz(path: &str) -> (r: bool)
    ensures
        r == (ext_of(path@) == Some("gz"@) || ext_of(path@) == Some("gzip"@)),
{
    ext_is_either(path, "gz", "gzip")
}

/// Whether the path is the conventional name for standard output.
pub fn path_stdout(p: &str) -> (r: bool)
    ensures
        r == (p@ == "-"@),
{
    str_eq(p, "-")
}

/// An invalid run configuration; all of these fail before decoding starts.
#[derive(Clone, Copy, Debug, PartialEq, Eq, Structural)]
pub enum ConfigError {
    /// The gzip level is outside 0 to 9.
    GzipLevel,
    /// The zstd level is outside 0 to 20.
    ZstdLevel,
    /// More than one output would print to standard output.
    MultipleStdout,
    /// No output was selected at all.
    NoOutput,
}

/// How compressed output is produced.
#[derive(Clone, Copy, Debug)]
pub struct CompressOpts {
    /// The gzip compression level, 0 to 9.
    pub glevel: u32,
    /// The zstd compression level, 0 to 20.
    pub zlevel: u32,
    /// How many threads zstd compression may use (0 disables that).
    pub zthreads: u16,
    /// Force gzip output regardless of the file name.
    pub gzip: bool,
    /// Force zstd output regardless of the file name.
    pub zstd: bool,
}

impl CompressOpts {
    /// The zstd level in the form the encoder takes.
    pub fn zlvl(&self) -> (r: i32)
        requires
            self.zlevel <= i32::MAX as u32,
        ensures
            r == self.zlevel as i32,
    {
        self.zlevel as i32
    }

    /// Check the compression levels; says exactly which level is out of its
    /// range, the gzip level first.
    pub fn validate(&self) -> (r: Result<(), ConfigError>)
        ensures
            r is Ok <==> (self.glevel <= 9 && self.zlevel <= 20),
            r == Err::<(), ConfigError>(ConfigError::GzipLevel) <==> self.glevel > 9,
            r == Err::<(), ConfigError>(ConfigError::ZstdLevel) <==> (self.glevel <= 9
                && self.zlevel > 20),
    {
        if self.glevel > 9 {
            return Err(ConfigError::GzipLevel);
        }
        if self.zlevel > 20 {
            return Err(ConfigError::ZstdLevel);
        }
        Ok(())
    }

    /// Whether output at `path` should be gzip: forced, or by extension.
    pub fn is_gz(&self, path: &str) -> (r: bool)
        ensures
            r == (self.gzip || ext_of(path@) == Some("gz"@) || ext_of(path@) == Some("gzip"@)),
    {
        self.gzip || ext_is_either(path, "gz", "gzip")
    }

    /// Whether output at `path` should be zstd: forced, or by extension.
    pub fn is_zstd(&self, path: &str) -> (r: bool)
        ensures
            r == (self.zstd || ext_of(path@) == Some("zstd"@) || ext_of(path@) == Some("zst"@)),
    {
        self.zstd || ext_is_either(path, "zstd", "zst")
    }
}

/// The output format of the watch command.
#[derive(Clone, Copy, Debug, PartialEq, Eq, Structural)]
pub enum WatchFormat {
    Csv,
    Json,
    Yaml,
}

/// Options of the watch command: watch directories for new capture files,
/// decode each, and write the records in one format.
#[derive(Debug)]
pub struct Watch {
    /// The format the decoded records are written in.
    pub format: WatchFormat,
    /// Whether the output should be multi-line formatted.
    pub pretty: bool,
    /// Filter events by this path pattern.
    pub filter: Option<String>,
    /// The directories to watch.
    pub watch_dirs: Vec<String>,
    /// Use polling instead of the platform watcher.
    pub poll: bool,
    /// The compression options.
    pub compress_opts: CompressOpts,
}

/// Options of the dump command: which combined and per-file outputs to
/// write, and which capture files to read.
#[derive(Debug)]
pub struct Dump {
    /// Dump each input file's records to a csv next to it.
    pub csvs: bool,
    /// Dump each input file's records to a json next to it.
    pub jsons: bool,
    /// Dump each input file's records to a yaml next to it.
    pub yamls: bool,
    /// Write the combined records to this csv path.
    pub csv: Option<String>,
    /// Write the combined records to this json path.
    pub json: Option<String>,
    /// Write the combined records to this yaml path.
    pub yaml: Option<String>,
    /// Write one summary row per distinct path to this csv path.
    pub uniques: Option<String>,
    /// How many days of files to pull, by file modification time; 0 pulls
    /// everything.
    pub pull_days: u32,
    /// The capture files (or directories of them) to decode.
    pub files: Vec<String>,
    /// The compression options.
    pub compress_opts: CompressOpts,
}

/// Whether an optional output path names standard output.
pub open spec fn spec_stdout_path(p: Option<Seq<char>>) -> bool {
    match p {
        Some(s) => s == "-"@,
        None => false,
    }
}

/// Whether this optional output path names standard output.
fn stdout_path(path: &Option<String>) -> (r: bool)
    ensures
        r == spec_stdout_path(match *path {
            Some(ref s) => Some(s@),
            None => None,
        }),
{
    match path {
        Some(p) => path_stdout(p.as_str()),
        None => false,
    }
}

impl Dump {
    /// The view of one optional output path.
    pub open spec fn opt_view(p: Option<String>) -> Option<Seq<char>> {
        match p {
            Some(s) => Some(s@),
            None => None,
        }
    }

    /// How many of the combined outputs print to standard output.
    pub fn stdout_counts(&self) -> (r: usize)
        ensures
            r == (if spec_stdout_path(Self::opt_view(self.csv)) {
                1int
            } else {
                0int
            }) + (if spec_stdout_path(Self::opt_view(self.json)) {
                1int
            } else {
                0int
            }) + (if spec_stdout_path(Self::opt_view(self.uniques)) {
                1int
            } else {
                0int
            }),
    {
        let mut counts: usize = 0;
        if stdout_path(&self.csv) {
            counts += 1;
        }
        if stdout_path(&self.json) {
            counts += 1;
        }
        if stdout_path(&self.uniques) {
            counts += 1;
        }
        counts
    }

    /// Whether any output at all was selected.
    pub open spec fn spec_any_output(self) -> bool {
        self.csvs || self.jsons || self.csv is Some || self.json is Some || self.uniques is Some
    }

    /// Check the whole dump configuration: the compression levels, at most
    /// one output on standard output, and at least one output selected.
    pub fn validate(&self, counts: usize) -> (r: Result<(), ConfigError>)
        ensures
            r is Ok <==> (self.compress_opts.glevel <= 9 && self.compress_opts.zlevel <= 20
                && counts <= 1 && self.spec_any_output()),
            r == Err::<(), ConfigError>(ConfigError::GzipLevel) <==> self.compress_opts.glevel > 9,
            r == Err::<(), ConfigError>(ConfigError::ZstdLevel) <==> (self.compress_opts.glevel <= 9
                && self.compress_opts.zlevel > 20),
            r == Err::<(), ConfigError>(ConfigError::MultipleStdout) <==> (self.compress_opts.glevel
                <= 9 && self.compress_opts.zlevel <= 20 && counts > 1),
            r == Err::<(), ConfigError>(ConfigError::NoOutput) <==> (self.compress_opts.glevel <= 9
                && self.compress_opts.zlevel <= 20 && counts <= 1 && !self.spec_any_output()),
    {
        match self.compress_opts.validate() {
            Err(e) => {
                return Err(e);
            },
            Ok(_) => {},
        }
        if counts > 1 {
            return Err(ConfigError::MultipleStdout);
        }
        if !(self.csvs || self.jsons || self.csv.is_some() || self.json.is_some()
            || self.uniques.is_some()) {
            return Err(ConfigError::NoOutput);
        }
        Ok(())
    }
}

/// A hexadecimal digit.
pub open spec fn is_hex_digit(c: char) -> bool {
    ('0' <= c && c <= '9') || ('a' <= c && c <= 'f') || ('A' <= c && c <= 'F')
}

/// Whether a file name is the kind the capture directory uses: hexadecimal
/// digits and nothing else.
pub fn want_filename(name: &str) -> (r: bool)
    ensures
        r == forall|i: int| 0 <= i < name@.len() ==> is_hex_digit(#[trigger] name@[i]),
{
    let n = name.unicode_len();
    let mut i: usize = 0;
    while i < n
        invariant
            i <= n,
            n as int == name@.len(),
            forall|j: int| 0 <= j < i ==> is_hex_digit(#[trigger] name@[j]),
        decreases n - i,
    {
        let c = name.get_char(i);
        let hex = ('0' <= c && c <= '9') || ('a' <= c && c <= 'f') || ('A' <= c && c <= 'F');
        if !hex {
            return false;
        }
        i += 1;
    }
    true
}

/// Whether a file's modification time lets it through the day cutoff: files
/// modified after the cutoff pass, and a missing time (either side) passes.
pub fn include_by_mtime(cutoff: Option<i64>, modified: Option<i64>) -> (r: bool)
    ensures
        r == match (cutoff, modified) {
            (Some(c), Some(m)) => m > c,
            _ => true,
        },
{
    match (cutoff, modified) {
        (Some(c), Some(m)) => m > c,
        _ => true,
    }
}

} // verus!
