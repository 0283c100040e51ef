use g3_verify::research::{extract_report, strip_ansi_codes, truncate_query};


#[test]
fn test_strip_ansi_codes() {
        // Simple color code
        assert_eq!(strip_ansi_codes("\x1b[31mred\x1b[0m"), "red");
        
        // RGB color code (like the bug we saw)
        assert_eq!(
            strip_ansi_codes("\x1b[38;2;216;177;114mtmp/file.md\x1b[0m"),
            "tmp/file.md"
        );
        
        // Multiple codes
        assert_eq!(
            strip_ansi_codes("\x1b[1m\x1b[32mbold green\x1b[0m normal"),
            "bold green normal"
        );
        
        // No codes
        assert_eq!(strip_ansi_codes("plain text"), "plain text");
        
        // Empty string
        assert_eq!(strip_ansi_codes(""), "");
    }

#[test]
fn test_extract_report_success() {
        let output = r#"Some preamble text
---SCOUT_REPORT_START---
# Research Brief

This is the report content.
---SCOUT_REPORT_END---
Some trailing text"#;
        
        let result = extract_report(output).unwrap();
        assert!(result.contains("Research Brief"));
        assert!(result.contains("This is the report content."));
        assert!(!result.contains("preamble"));
        assert!(!result.contains("trailing"));
    }

#[test]
fn test_extract_report_with_ansi_codes() {
        let output = "\x1b[32m---SCOUT_REPORT_START---\x1b[0m\n# Report\n\x1b[31m---SCOUT_REPORT_END---\x1b[0m";
        
        let result = extract_report(output).unwrap();
        assert!(result.contains("# Report"));
    }

#[test]
fn test_extract_report_missing_start() {
        let output = "No markers here";
        let result = extract_report(output);
        assert!(result.is_err());
        assert!(result.unwrap_err().to_string().contains("SCOUT_REPORT_START"));
    }

#[test]
fn test_extract_report_missing_end() {
        let output = "---SCOUT_REPORT_START---\nContent but no end";
        let result = extract_report(output);
        assert!(result.is_err());
        assert!(result.unwrap_err().to_string().contains("SCOUT_REPORT_END"));
    }

#[test]
fn test_extract_report_empty_content() {
        let output = "---SCOUT_REPORT_START---\n---SCOUT_REPORT_END---";
        let result = extract_report(output).unwrap();
        assert!(result.contains("empty report"));
    }

#[test]
fn test_truncate_query() {
        assert_eq!(truncate_query("short query", 50), "short query");
        
        let long_query = "This is a very long research query that should be truncated for display purposes";
        let result = truncate_query(long_query, 40);
        assert!(result.len() <= 40);
        assert!(result.ends_with("..."));
    }
