use g3_verify::terminal::{
    available_width_after_prefix, clip_line, compress_command, compress_path, get_terminal_width,
    MIN_WIDTH,
};


#[test]
fn test_clip_line_short() {
        let line = "hello world";
        assert_eq!(clip_line(line, 80), "hello world");
    }

#[test]
fn test_clip_line_exact() {
        let line = "hello";
        assert_eq!(clip_line(line, 5), "hello");
    }

#[test]
fn test_clip_line_truncate() {
        let line = "hello world this is a long line";
        assert_eq!(clip_line(line, 15), "hello world th…");
    }

#[test]
fn test_clip_line_unicode() {
        let line = "héllo wörld 你好";
        let clipped = clip_line(line, 10);
        assert_eq!(clipped.chars().count(), 10);
        assert!(clipped.ends_with('…'));
    }

#[test]
fn test_clip_line_empty() {
        assert_eq!(clip_line("", 80), "");
    }

#[test]
fn test_compress_path_short() {
        let path = "src/main.rs";
        assert_eq!(compress_path(path, 80), "src/main.rs");
    }

#[test]
fn test_compress_path_long() {
        let path = "/Users/dhanji/src/g3/crates/g3-cli/src/ui_writer_impl.rs";
        let compressed = compress_path(path, 40);
        assert!(compressed.chars().count() <= 40);
        assert!(compressed.ends_with("ui_writer_impl.rs"));
        assert!(compressed.starts_with('…'));
    }

#[test]
fn test_compress_path_preserves_filename() {
        let path = "/very/long/path/to/some/deeply/nested/file.rs";
        let compressed = compress_path(path, 20);
        assert!(compressed.contains("file.rs"));
    }

#[test]
fn test_compress_path_very_narrow() {
        let path = "/path/to/extremely_long_filename_that_exceeds_width.rs";
        let compressed = compress_path(path, 15);
        assert!(compressed.chars().count() <= 15);
        assert!(compressed.ends_with('…'));
    }

#[test]
fn test_compress_command_short() {
        let cmd = "ls -la";
        assert_eq!(compress_command(cmd, 80), "ls -la");
    }

#[test]
fn test_compress_command_long() {
        let cmd = "rg 'pattern' --type rust -l | head -20 | sort";
        let compressed = compress_command(cmd, 30);
        assert!(compressed.chars().count() <= 30);
        assert!(compressed.starts_with("rg 'pattern'"));
        assert!(compressed.ends_with('…'));
    }

#[test]
fn test_get_terminal_width_returns_reasonable_value() {
        let width = get_terminal_width(None);
        // Should be at least MIN_WIDTH
        assert!(width >= MIN_WIDTH);
        // Should be reasonable (not absurdly large)
        assert!(width < 1000);
    }

#[test]
fn test_available_width_after_prefix() {
        let width = available_width_after_prefix(None, 3); // e.g., "│ "
        assert!(width >= MIN_WIDTH.saturating_sub(3));
    }
