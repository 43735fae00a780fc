//! Server configuration: its sections, their defaults, and where the
//! configuration file and the data directory are found.

use vstd::prelude::*;
use crate::storage::{joined, join_path};
use crate::text::{chars_of, push_str, slice_chars, string_of};

verus! {

/// The `[server]` section.
#[derive(Debug)]
pub struct ServerConfig {
    pub host: String,
    pub port: u16,
    pub data_dir: Option<String>,
}

/// The `[auth]` section.
#[derive(Debug)]
pub struct AuthConfig {
    pub api_key: String,
}

/// The `[inference]` section.
#[derive(Debug)]
pub struct InferenceConfig {
    pub backend: String,
    pub endpoint: String,
    pub model: String,
}

/// The `[embeddings]` section.
#[derive(Debug)]
pub struct EmbeddingsConfig {
    pub backend: String,
    pub model: String,
    pub endpoint: String,
    pub dimensions: usize,
}

/// The `[images]` section.
#[derive(Debug)]
pub struct ImageConfig {
    pub thumbnail_width: u32,
    pub thumbnail_format: String,
    pub thumbnail_quality: u8,
}

pub fn default_host() -> (r: String)
    ensures
        r@ == "0.0.0.0"@,
{
    "0.0.0.0".to_string()
}

pub fn default_port() -> (r: u16)
    ensures
        r == 3420,
{
    3420
}

pub fn default_inference_backend() -> (r: String)
    ensures
        r@ == "vllm-mlx"@,
{
    "vllm-mlx".to_string()
}

pub fn default_inference_endpoint() -> (r: String)
    ensures
        r@ == "http://127.0.0.1:8000"@,
{
    "http://127.0.0.1:8000".to_string()
}

pub fn default_inference_model() -> (r: String)
    ensures
        r@ == "mlx-community/gemma-4-26b-a4b-it-4bit"@,
{
    "mlx-community/gemma-4-26b-a4b-it-4bit".to_string()
}

pub fn default_embeddings_backend() -> (r: String)
    ensures
        r@ == "vllm-mlx"@,
{
    "vllm-mlx".to_string()
}

pub fn default_embeddings_model() -> (r: String)
    ensures
        r@ == "mlx-community/all-MiniLM-L6-v2-4bit"@,
{
    "mlx-community/all-MiniLM-L6-v2-4bit".to_string()
}

pub fn default_embeddings_endpoint() -> (r: String)
    ensures
        r@ == "http://127.0.0.1:8000"@,
{
    "http://127.0.0.1:8000".to_string()
}

pub fn default_dimensions() -> (r: usize)
    ensures
        r == 384,
{
    384
}

pub fn default_thumbnail_width() -> (r: u32)
    ensures
        r == 400,
{
    400
}

pub fn default_thumbnail_format() -> (r: String)
    ensures
        r@ == "webp"@,
{
    "webp".to_string()
}

pub fn default_thumbnail_quality() -> (r: u8)
    ensures
        r == 80,
{
    80
}

pub fn default_workers() -> (r: usize)
    ensures
        r == 1,
{
    1
}

/// Default `max_tokens` of a chat request.
pub fn default_max_tokens() -> (r: u32)
    ensures
        r == 2048,
{
    2048
}

impl Default for ServerConfig {
    fn default() -> (r: Self)
        ensures
            r.host@ == "0.0.0.0"@,
            r.port == 3420,
            r.data_dir is None,
    {
        ServerConfig { host: default_host(), port: default_port(), data_dir: None }
    }
}

impl Default for InferenceConfig {
    fn default() -> (r: Self)
        ensures
            r.backend@ == "vllm-mlx"@,
            r.endpoint@ == "http://127.0.0.1:8000"@,
            r.model@ == "mlx-community/gemma-4-26b-a4b-it-4bit"@,
    {
        InferenceConfig {
            backend: default_inference_backend(),
            endpoint: default_inference_endpoint(),
            model: default_inference_model(),
        }
    }
}

impl Default for EmbeddingsConfig {
    fn default() -> (r: Self)
        ensures
            r.backend@ == "vllm-mlx"@,
            r.model@ == "mlx-community/all-MiniLM-L6-v2-4bit"@,
            r.endpoint@ == "http://127.0.0.1:8000"@,
            r.dimensions == 384,
    {
        EmbeddingsConfig {
            backend: default_embeddings_backend(),
            model: default_embeddings_model(),
            endpoint: default_embeddings_endpoint(),
            dimensions: default_dimensions(),
        }
    }
}

impl Default for ImageConfig {
    fn default() -> (r: Self)
        ensures
            r.thumbnail_width == 400,
            r.thumbnail_format@ == "webp"@,
            r.thumbnail_quality == 80,
    {
        ImageConfig {
            thumbnail_width: default_thumbnail_width(),
            thumbnail_format: default_thumbnail_format(),
            thumbnail_quality: default_thumbnail_quality(),
        }
    }
}

/// `~/`-prefixed paths with the home directory put in place of `~`, when it
/// is known; every other path unchanged.
pub open spec fn expanded(path: Seq<char>, home: Option<Seq<char>>) -> Seq<char> {
    if path.len() >= 2 && path[0] == '~' && path[1] == '/' && home is Some {
        home->0 + path.subrange(1, path.len() as int)
    } else {
        path
    }
}

/// The characters of an optional string.
pub open spec fn opt_view(o: Option<String>) -> Option<Seq<char>> {
    match o {
        Some(s) => Some(s@),
        None => None,
    }
}

/// The characters of an optional string slice.
pub open spec fn opt_str_view(o: Option<&str>) -> Option<Seq<char>> {
    match o {
        Some(s) => Some(s@),
        None => None,
    }
}

/// Expands a leading `~/` against the given home directory.
pub fn expand_home(path: &str, home: Option<String>) -> (r: String)
    ensures
        r@ == expanded(path@, opt_view(home)),
{
    let v = chars_of(path);
    if v.len() >= 2 && v[0] == '~' && v[1] == '/' {
        match home {
            Some(h) => {
                let rest = slice_chars(&v, 1, v.len());
                let mut out = h;
                let tail = string_of(rest.as_slice());
                push_str(&mut out, tail.as_str());
                return out;
            },
            None => {},
        }
    }
    path.to_string()
}

/// The data directory: the configured one with `~` expanded, else `shrank`
/// in the platform's local data directory, else `./shrank`.
pub open spec fn data_dir_of(
    configured: Option<Seq<char>>,
    home: Option<Seq<char>>,
    local_data: Option<Seq<char>>,
) -> Seq<char> {
    match configured {
        Some(dir) => expanded(dir, home),
        None => joined(
            match local_data {
                Some(d) => d,
                None => "."@,
            },
            "shrank"@,
        ),
    }
}

/// Where the data directory is, given the directories the platform reports.
pub fn data_dir_from(configured: Option<&str>, home: Option<String>, local_data: Option<String>) -> (r:
    String)
    ensures
        r@ == data_dir_of(
            match configured {
                Some(c) => Some(c@),
                None => None,
            },
            opt_view(home),
            opt_view(local_data),
        ),
{
    match configured {
        Some(dir) => expand_home(dir, home),
        None => {
            let base = match local_data {
                Some(d) => d,
                None => ".".to_string(),
            };
            join_path(base.as_str(), "shrank")
        },
    }
}

/// The configuration file: the path the environment names, else
/// `shrank/config.toml` in the platform's configuration directory, else in `.`.
pub open spec fn config_path_of(env_path: Option<Seq<char>>, config_dir: Option<Seq<char>>) -> Seq<
    char,
> {
    match env_path {
        Some(p) => p,
        None => joined(
            joined(
                match config_dir {
                    Some(d) => d,
                    None => "."@,
                },
                "shrank"@,
            ),
            "config.toml"@,
        ),
    }
}

/// Where the configuration file is, given `SHRANK_CONFIG` and the platform's
/// configuration directory.
pub fn config_path_from(env_path: Option<String>, config_dir: Option<String>) -> (r: String)
    ensures
        r@ == config_path_of(opt_view(env_path), opt_view(config_dir)),
{
    match env_path {
        Some(p) => p,
        None => {
            let base = match config_dir {
                Some(d) => d,
                None => ".".to_string(),
            };
            let dir = join_path(base.as_str(), "shrank");
            join_path(dir.as_str(), "config.toml")
        },
    }
}

/// `dirs::home_dir`, as text. It depends on the environment: nothing is claimed.
#[verifier::external_body]
fn home_dir() -> Option<String> {
    dirs::home_dir().map(|p| p.to_string_lossy().to_string())
}

/// `dirs::data_local_dir`, as text. It depends on the environment: nothing is claimed.
#[verifier::external_body]
fn data_local_dir() -> Option<String> {
    dirs::data_local_dir().map(|p| p.to_string_lossy().to_string())
}

/// `dirs::config_dir`, as text. It depends on the environment: nothing is claimed.
#[verifier::external_body]
fn config_dir() -> Option<String> {
    dirs::config_dir().map(|p| p.to_string_lossy().to_string())
}

/// Expands `~/` against the user's home directory.
pub fn shellexpand(path: &str) -> (r: String)
    ensures
        exists|home: Option<Seq<char>>| r@ == #[trigger] expanded(path@, home),
{
    let home = home_dir();
    let r = expand_home(path, home);
    assert(r@ == expanded(path@, opt_view(home)));
    r
}

/// The data directory for a configured `server.data_dir`, looking the home
/// and local data directories up on this machine.
pub fn resolve_data_dir(configured: Option<&str>) -> (r: String)
    ensures
        exists|home: Option<Seq<char>>, local: Option<Seq<char>>|
            r@ == #[trigger] data_dir_of(opt_str_view(configured), home, local),
{
    let home = home_dir();
    let local = data_local_dir();
    let ghost h = opt_view(home);
    let ghost l = opt_view(local);
    let r = data_dir_from(configured, home, local);
    assert(r@ == data_dir_of(opt_str_view(configured), h, l));
    r
}

/// The configuration file for a given `SHRANK_CONFIG`, looking the platform's
/// configuration directory up on this machine.
pub fn resolve_config_path(env_path: Option<String>) -> (r: String)
    ensures
        exists|dir: Option<Seq<char>>| r@ == #[trigger] config_path_of(opt_view(env_path), dir),
{
    let ghost e = opt_view(env_path);
    let dir = config_dir();
    let ghost d = opt_view(dir);
    let r = config_path_from(env_path, dir);
    assert(r@ == config_path_of(e, d));
    r
}

} // verus!
