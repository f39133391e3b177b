use vstd::prelude::*;

verus! {

/// The process-wide configuration.
pub struct Config {
    pub debug: bool,
    pub server: ServerConfig,
    pub stores: Vec<StoreConfig>,
    pub pdf: Option<PdfConfig>,
    pub cache: Option<CacheConfig>,
}

/// Which cache backend to use and where to reach it.
pub struct CacheConfig {
    pub backend: String,
    pub url: String,
}

/// Where the PDF generator finds its browser and scratch space.
pub struct PdfConfig {
    pub chromium_path: String,
    pub temp_dir: String,
}

/// The listen address of the HTTP surface.
pub struct ServerConfig {
    pub port: u16,
    pub host: String,
}

/// One store backend: its name, kind, location and content tags.
pub struct StoreConfig {
    pub name: String,
    pub store_type: String,
    pub url: String,
    pub path: String,
    pub tags: Vec<String>,
}

impl Config {
    /// The default configuration: no stores, no cache, no PDF support,
    /// listening on every interface.
    pub fn empty() -> (r: Config)
        ensures
            !r.debug,
            r.pdf is None,
            r.cache is None,
            r.server.port == 8006,
            r.server.host@ == "0.0.0.0"@,
            r.stores@.len() == 0,
    {
        Config {
            debug: false,
            pdf: None,
            cache: None,
            server: ServerConfig { port: 8006, host: String::from_str("0.0.0.0") },
            stores: Vec::new(),
        }
    }
}

/// The scratch directory with a leading home shorthand replaced by the given
/// home directory.
pub open spec fn spec_expand_home(dir: Seq<char>, home: Seq<char>) -> Seq<char> {
    if crate::strutil::starts_with(dir, "$HOME"@) {
        home + dir.skip("$HOME"@.len() as int)
    } else {
        dir
    }
}

/// Replaces a leading `$HOME` in a path with the given home directory.
pub fn expand_home(dir: &str, home: &str) -> (r: String)
    ensures
        r@ == spec_expand_home(dir@, home@),
{
    proof {
        reveal_strlit("$HOME");
    }
    let n = dir.unicode_len();
    if n >= 5 && crate::strutil::starts_with_str(dir, "$HOME") {
        let rest = dir.substring_char(5, n);
        String::from_str(home).concat(rest)
    } else {
        if n < 5 {
            proof {
                assert(!crate::strutil::starts_with(dir@, "$HOME"@));
            }
        }
        String::from_str(dir)
    }
}

} // verus!
