use g3_verify::project::{combine_project_content, extract_project_heading, truncate_for_display};


#[test]
fn test_extract_project_heading() {
        let content = "# My Project\n\nSome description";
        assert_eq!(extract_project_heading(content), Some("My Project".to_string()));
    }

#[test]
fn test_extract_project_heading_with_agents_prefix() {
        let content = "ü§ñ Agent Configuration (from AGENTS.md):\n# Cool App\n\nDescription";
        assert_eq!(extract_project_heading(content), Some("Cool App".to_string()));
    }

#[test]
fn test_truncate_for_display() {
        assert_eq!(truncate_for_display("short", 100), "short");
        let long = "a".repeat(150);
        let truncated = truncate_for_display(&long, 100);
        assert!(truncated.ends_with("..."));
        assert_eq!(truncated.len(), 100);
    }

#[test]
fn test_truncate_for_display_utf8() {
        // Multi-byte characters should not cause panics
        let emoji_text = "Hello üëã World üåç Test ‚ú® More text here and more";
        let truncated = truncate_for_display(emoji_text, 15);
        assert!(truncated.ends_with("..."));
        assert!(truncated.chars().count() <= 15);
    }

#[test]
fn test_combine_project_content_all_some() {
        let workspace = "/test/workspace";
        let result = combine_project_content(
            Some("agents".to_string()),
            Some("memory".to_string()),
            Some("language".to_string()),
            None, // include_prompt
            None, // skills_content
            workspace,
        );
        assert!(result.is_some());
        let content = result.unwrap();
        assert!(content.contains("üìÇ Working Directory: /test/workspace"));
        assert!(content.contains("agents"));
        assert!(content.contains("memory"));
        assert!(content.contains("language"));
    }

#[test]
fn test_combine_project_content_partial() {
        let workspace = "/test/workspace";
        let result = combine_project_content(None, Some("memory".to_string()), None, None, None, workspace);
        assert!(result.is_some());
        let content = result.unwrap();
        assert!(content.contains("üìÇ Working Directory: /test/workspace"));
        assert!(content.contains("memory"));
    }

#[test]
fn test_combine_project_content_all_none() {
        let workspace = "/test/workspace";
        let result = combine_project_content(None, None, None, None, None, workspace);
        // Now always returns Some because we always include the working directory
        assert!(result.is_some());
        assert!(result.unwrap().contains("üìÇ Working Directory: /test/workspace"));
    }

#[test]
fn test_combine_project_content_with_include_prompt() {
        let workspace = "/test/workspace";
        let result = combine_project_content(
            Some("agents".to_string()),
            Some("memory".to_string()),
            Some("language".to_string()),
            Some("include_prompt".to_string()),
            None, // skills_content
            workspace,
        );
        assert!(result.is_some());
        let content = result.unwrap();
        assert!(content.contains("include_prompt"));
    }

#[test]
fn test_combine_project_content_order() {
        // Verify correct ordering: agents < language < include_prompt < memory
        let workspace = "/test/workspace";
        let result = combine_project_content(
            Some("AGENTS_CONTENT".to_string()),
            Some("MEMORY_CONTENT".to_string()),
            Some("LANGUAGE_CONTENT".to_string()),
            Some("INCLUDE_PROMPT_CONTENT".to_string()),
            None, // skills_content
            workspace,
        );
        let content = result.unwrap();
        
        // Find positions of each section
        let agents_pos = content.find("AGENTS_CONTENT").expect("agents not found");
        let language_pos = content.find("LANGUAGE_CONTENT").expect("language not found");
        let include_pos = content.find("INCLUDE_PROMPT_CONTENT").expect("include_prompt not found");
        let memory_pos = content.find("MEMORY_CONTENT").expect("memory not found");
        
        // Verify order: agents < language < include_prompt < memory
        assert!(agents_pos < language_pos, "agents should come before language");
        assert!(language_pos < include_pos, "language should come before include_prompt");
        assert!(include_pos < memory_pos, "include_prompt should come before memory");
    }

#[test]
fn test_combine_project_content_order_memory_last() {
        // Verify memory is always last even when include_prompt is None
        let workspace = "/test/workspace";
        let result = combine_project_content(
            Some("AGENTS".to_string()),
            Some("MEMORY".to_string()),
            Some("LANGUAGE".to_string()),
            None, // no include_prompt
            None, // skills_content
            workspace,
        );
        let content = result.unwrap();
        
        // Memory should still be last
        let language_pos = content.find("LANGUAGE").expect("language not found");
        let memory_pos = content.find("MEMORY").expect("memory not found");
        assert!(language_pos < memory_pos, "memory should come after language");
    }
