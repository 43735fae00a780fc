use shrank::config::{
    config_path_from, data_dir_from, default_dimensions, default_embeddings_backend,
    default_embeddings_endpoint, default_embeddings_model, default_host, default_inference_backend,
    default_inference_endpoint, default_inference_model, default_max_tokens, default_port,
    default_thumbnail_format, default_thumbnail_quality, default_thumbnail_width, default_workers,
    expand_home, EmbeddingsConfig, ImageConfig, InferenceConfig, ServerConfig,
};
use shrank::inference::{image_data_url, strip_thinking_channel, trim_trailing_slashes};
use shrank::storage::{
    join_path, original_abs_path, original_dir, original_rel_path, thumbnail_abs_path,
    thumbnail_dir, thumbnail_rel_path,
};

#[test]
fn relative_image_paths() {
    assert_eq!(original_rel_path("01J5K4"), "originals/01J5K4/scan.jpg");
    assert_eq!(thumbnail_rel_path("01J5K4"), "thumbnails/01J5K4/thumb.webp");
}

#[test]
fn absolute_image_paths() {
    assert_eq!(original_abs_path("/data", "abc"), "/data/originals/abc/scan.jpg");
    assert_eq!(thumbnail_abs_path("/data/", "abc"), "/data/thumbnails/abc/thumb.webp");
    assert_eq!(original_abs_path("", "abc"), "originals/abc/scan.jpg");
}

#[test]
fn stored_images_lie_in_the_deleted_directories() {
    let dir = original_dir("/data", "abc");
    assert_eq!(dir, "/data/originals/abc");
    assert_eq!(format!("{dir}/scan.jpg"), original_abs_path("/data", "abc"));
    let tdir = thumbnail_dir("/data", "abc");
    assert_eq!(format!("{tdir}/thumb.webp"), thumbnail_abs_path("/data", "abc"));
}

#[test]
fn join_follows_path_join() {
    assert_eq!(join_path("a", "b"), "a/b");
    assert_eq!(join_path("a/", "b"), "a/b");
    assert_eq!(join_path("a", "/b"), "/b");
    assert_eq!(join_path("", "b"), "b");
}

#[test]
fn defaults() {
    assert_eq!(default_host(), "0.0.0.0");
    assert_eq!(default_port(), 3420);
    assert_eq!(default_inference_backend(), "vllm-mlx");
    assert_eq!(default_inference_endpoint(), "http://127.0.0.1:8000");
    assert_eq!(default_inference_model(), "mlx-community/gemma-4-26b-a4b-it-4bit");
    assert_eq!(default_embeddings_backend(), "vllm-mlx");
    assert_eq!(default_embeddings_model(), "mlx-community/all-MiniLM-L6-v2-4bit");
    assert_eq!(default_embeddings_endpoint(), "http://127.0.0.1:8000");
    assert_eq!(default_dimensions(), 384);
    assert_eq!(default_thumbnail_width(), 400);
    assert_eq!(default_thumbnail_format(), "webp");
    assert_eq!(default_thumbnail_quality(), 80);
    assert_eq!(default_workers(), 1);
    assert_eq!(default_max_tokens(), 2048);
}

#[test]
fn default_sections() {
    let s = ServerConfig::default();
    assert_eq!(s.host, "0.0.0.0");
    assert_eq!(s.port, 3420);
    assert!(s.data_dir.is_none());
    let i = InferenceConfig::default();
    assert_eq!(i.backend, "vllm-mlx");
    assert_eq!(i.endpoint, "http://127.0.0.1:8000");
    let e = EmbeddingsConfig::default();
    assert_eq!(e.dimensions, 384);
    assert_eq!(e.model, "mlx-community/all-MiniLM-L6-v2-4bit");
    let img = ImageConfig::default();
    assert_eq!(img.thumbnail_width, 400);
    assert_eq!(img.thumbnail_format, "webp");
    assert_eq!(img.thumbnail_quality, 80);
}

#[test]
fn home_expansion() {
    assert_eq!(expand_home("~/shrank", Some("/home/u".to_string())), "/home/u/shrank");
    assert_eq!(expand_home("~/shrank", None), "~/shrank");
    assert_eq!(expand_home("/var/shrank", Some("/home/u".to_string())), "/var/shrank");
    assert_eq!(expand_home("~user/x", Some("/home/u".to_string())), "~user/x");
}

#[test]
fn data_directory() {
    assert_eq!(data_dir_from(Some("~/d"), Some("/h".to_string()), None), "/h/d");
    assert_eq!(data_dir_from(None, None, Some("/local".to_string())), "/local/shrank");
    assert_eq!(data_dir_from(None, None, None), "./shrank");
}

#[test]
fn config_file_location() {
    assert_eq!(config_path_from(Some("/etc/s.toml".to_string()), None), "/etc/s.toml");
    assert_eq!(config_path_from(None, Some("/cfg".to_string())), "/cfg/shrank/config.toml");
    assert_eq!(config_path_from(None, None), "./shrank/config.toml");
}

#[test]
fn endpoint_slashes() {
    assert_eq!(trim_trailing_slashes("http://x:8000//"), "http://x:8000");
    assert_eq!(trim_trailing_slashes("http://x"), "http://x");
}

#[test]
fn thinking_channel() {
    assert_eq!(strip_thinking_channel("<|channel>thought\nabc<channel|> answer "), "answer");
    assert_eq!(strip_thinking_channel("<|channel>thought\n analysis <channel|>  "), "analysis");
    assert_eq!(
        strip_thinking_channel("<|channel>thought\n{\"sender\": \"AOK\"}<channel|>"),
        "{\"sender\": \"AOK\"}"
    );
    assert_eq!(strip_thinking_channel("<|channel>thought\nstructured notes"), "structured notes");
    assert_eq!(strip_thinking_channel("<|channel>direct"), "direct");
    assert_eq!(strip_thinking_channel("  plain text "), "  plain text ");
}

#[test]
fn ocr_data_url() {
    assert_eq!(image_data_url(b"Man"), "data:image/jpeg;base64,TWFu");
    assert_eq!(image_data_url(b"Ma"), "data:image/jpeg;base64,TWE=");
    assert_eq!(image_data_url(b""), "data:image/jpeg;base64,");
    assert_eq!(image_data_url(b"M"), "data:image/jpeg;base64,TQ==");
    assert_eq!(image_data_url(&[0xfb, 0xff, 0xbf]), "data:image/jpeg;base64,+/+/");
    assert_eq!(image_data_url(b"Many hands"), "data:image/jpeg;base64,TWFueSBoYW5kcw==");
}
