//! Tuning knobs for the download engine, and where things go by default.

use vstd::prelude::*;

verus! {

/// Tuning knobs for the download engine. Durations are in milliseconds.
#[derive(Debug, Clone, PartialEq, Eq)]
pub struct EngineConfig {
    /// Maximum simultaneous connections for a single download.
    pub max_connections: u32,
    /// Never create a segment smaller than this. Below a few MiB the connection
    /// setup cost outweighs any parallelism gain.
    pub min_split_size: u64,
    /// Bytes each worker buffers in memory before issuing one positioned write.
    pub write_buffer: usize,
    /// Retry budget per segment before the whole download fails.
    pub max_retries: u32,
    pub connect_timeout_ms: u64,
    /// Idle timeout while streaming a body. Not a total-download timeout.
    pub read_timeout_ms: u64,
    pub user_agent: String,
    /// Root of the organized download tree.
    pub download_root: String,
    /// Sort finished files into per-type subfolders under `download_root`.
    pub organize_by_type: bool,
    /// Where `.part` and `.fdm` files live while a download is running. The
    /// download folder then only ever contains finished files.
    pub temp_dir: String,
    /// When false, partial data sits beside the finished file as
    /// `<name>.part` instead of in `temp_dir`.
    pub use_temp_dir: bool,
    /// How often progress callbacks fire.
    pub progress_interval_ms: u64,
}

impl EngineConfig {
    /// The default knobs, over the given directories.
    pub fn new(download_root: &str, temp_dir: &str) -> (r: EngineConfig)
        ensures
            r.max_connections == 64,
            r.min_split_size == 262144,
            r.write_buffer == 65536,
            r.max_retries == 10,
            r.connect_timeout_ms == 8000,
            r.read_timeout_ms == 20000,
            r.user_agent@
                == "Mozilla/5.0 (Windows NT 10.0; Win64; x64) AppleWebKit/537.36 (KHTML, like Gecko) Chrome/131.0.0.0 Safari/537.36 FDM/0.1.0"@,
            r.download_root@ == download_root@,
            r.organize_by_type,
            r.temp_dir@ == temp_dir@,
            r.use_temp_dir,
            r.progress_interval_ms == 16,
    {
        EngineConfig {
            max_connections: 64,
            min_split_size: 262144,
            write_buffer: 65536,
            max_retries: 10,
            connect_timeout_ms: 8000,
            read_timeout_ms: 20000,
            user_agent: "Mozilla/5.0 (Windows NT 10.0; Win64; x64) AppleWebKit/537.36 (KHTML, like Gecko) Chrome/131.0.0.0 Safari/537.36 FDM/0.1.0".to_owned(),
            download_root: download_root.to_owned(),
            organize_by_type: true,
            temp_dir: temp_dir.to_owned(),
            use_temp_dir: true,
            progress_interval_ms: 16,
        }
    }
}

/// What a list of path components says.
pub open spec fn components(v: Seq<String>) -> Seq<Seq<char>> {
    v.map_values(|s: String| s@)
}

/// `Downloads/FDM` under the home directory, as components to join. Falls back
/// to the current directory if the home directory can't be found.
pub fn default_download_root(home: Option<&str>) -> (r: Vec<String>)
    ensures
        components(r@) == (match home {
            Some(h) => seq![h@, "Downloads"@, "FDM"@],
            None => seq!["."@],
        }),
{
    match home {
        Some(h) => {
            let r: Vec<String> = vec![h.to_owned(), "Downloads".to_owned(), "FDM".to_owned()];
            assert(components(r@) =~= seq![h@, "Downloads"@, "FDM"@]);
            r
        },
        None => {
            let r: Vec<String> = vec![".".to_owned()];
            assert(components(r@) =~= seq!["."@]);
            r
        },
    }
}

/// `FDM/Temp` under the per-user local data directory, as components to join;
/// under the home directory's cache where there is none, and in the system's
/// temporary directory where there is no home either.
///
/// Not the install directory, which a standard user cannot write to.
pub fn default_temp_dir(local_data: Option<&str>, home: Option<&str>, system_temp: &str) -> (r: Vec<
    String,
>)
    ensures
        components(r@) == (if local_data is Some && local_data->0@.len() > 0 {
            seq![local_data->0@, "FDM"@, "Temp"@]
        } else if home is Some {
            seq![home->0@, ".cache"@, "FDM"@, "Temp"@]
        } else {
            seq![system_temp@, "FDM"@]
        }),
{
    if let Some(d) = local_data {
        if !d.is_empty() {
            let r: Vec<String> = vec![d.to_owned(), "FDM".to_owned(), "Temp".to_owned()];
            assert(components(r@) =~= seq![d@, "FDM"@, "Temp"@]);
            return r;
        }
    }
    match home {
        Some(h) => {
            let r: Vec<String> = vec![
                h.to_owned(),
                ".cache".to_owned(),
                "FDM".to_owned(),
                "Temp".to_owned(),
            ];
            assert(components(r@) =~= seq![h@, ".cache"@, "FDM"@, "Temp"@]);
            r
        },
        None => {
            let r: Vec<String> = vec![system_temp.to_owned(), "FDM".to_owned()];
            assert(components(r@) =~= seq![system_temp@, "FDM"@]);
            r
        },
    }
}

} // verus!
