use g3_verify::skills::Skill;

fn test_path() -> &'static str {
    "/test/skill/SKILL.md"
}


#[test]
fn test_parse_valid_skill() {
        let content = r#"---
name: pdf-processing
description: Extract text and tables from PDF files using pdfplumber
license: Apache-2.0
compatibility: Requires Python 3.8+
metadata:
  author: example-org
  version: "1.0"
---

# PDF Processing

Use this skill when working with PDF files.
"#;
        
        let skill = Skill::parse(content, test_path()).unwrap();
        assert_eq!(skill.name, "pdf-processing");
        assert_eq!(skill.description, "Extract text and tables from PDF files using pdfplumber");
        assert_eq!(skill.license, Some("Apache-2.0".to_string()));
        assert_eq!(skill.compatibility, Some("Requires Python 3.8+".to_string()));
        assert!(skill.body.contains("# PDF Processing"));
        
        let metadata = skill.metadata.unwrap();
        assert_eq!(metadata.iter().find(|(k, _)| k == "author").map(|(_, v)| v), Some(&"example-org".to_string()));
        assert_eq!(metadata.iter().find(|(k, _)| k == "version").map(|(_, v)| v), Some(&"1.0".to_string()));
    }

#[test]
fn test_parse_minimal_skill() {
        let content = r#"---
name: simple-skill
description: A simple skill
---

Body content here.
"#;
        
        let skill = Skill::parse(content, test_path()).unwrap();
        assert_eq!(skill.name, "simple-skill");
        assert_eq!(skill.description, "A simple skill");
        assert!(skill.license.is_none());
        assert!(skill.compatibility.is_none());
        assert!(skill.metadata.is_none());
    }

#[test]
fn test_missing_name() {
        let content = r#"---
description: A skill without a name
---

Body.
"#;
        
        let err = Skill::parse(content, test_path()).unwrap_err();
        assert!(err.to_string().contains("Missing required 'name'"));
    }

#[test]
fn test_missing_description() {
        let content = r#"---
name: no-description
---

Body.
"#;
        
        let err = Skill::parse(content, test_path()).unwrap_err();
        assert!(err.to_string().contains("Missing required 'description'"));
    }

#[test]
fn test_invalid_name_uppercase() {
        let content = r#"---
name: Invalid-Name
description: Has uppercase
---

Body.
"#;
        
        let err = Skill::parse(content, test_path()).unwrap_err();
        assert!(err.to_string().contains("invalid character"));
    }

#[test]
fn test_invalid_name_leading_hyphen() {
        let content = r#"---
name: -leading-hyphen
description: Bad name
---

Body.
"#;
        
        let err = Skill::parse(content, test_path()).unwrap_err();
        assert!(err.to_string().contains("cannot start or end with hyphen"));
    }

#[test]
fn test_invalid_name_consecutive_hyphens() {
        let content = r#"---
name: double--hyphen
description: Bad name
---

Body.
"#;
        
        let err = Skill::parse(content, test_path()).unwrap_err();
        assert!(err.to_string().contains("consecutive hyphens"));
    }

#[test]
fn test_missing_frontmatter() {
        let content = "# Just markdown\n\nNo frontmatter here.";
        
        let err = Skill::parse(content, test_path()).unwrap_err();
        assert!(err.to_string().contains("must start with YAML frontmatter"));
    }

#[test]
fn test_unclosed_frontmatter() {
        let content = r#"---
name: unclosed
description: Missing closing delimiter

Body without closing ---
"#;
        
        let err = Skill::parse(content, test_path()).unwrap_err();
        assert!(err.to_string().contains("not closed"));
    }

#[test]
fn test_empty_frontmatter() {
        let content = "---\n---\n\nBody.";
        
        let err = Skill::parse(content, test_path()).unwrap_err();
        assert!(err.to_string().contains("frontmatter is empty"));
    }

#[test]
fn test_description_too_long() {
        let long_desc = "x".repeat(1025);
        let content = format!("---\nname: long-desc\ndescription: {}\n---\n\nBody.", long_desc);
        
        let err = Skill::parse(&content, test_path()).unwrap_err();
        assert!(err.to_string().contains("exceeds 1024 characters"));
    }

#[test]
fn test_allowed_tools_field() {
        let content = r#"---
name: git-skill
description: Git operations
allowed-tools: Bash(git:*) Read
---

Body.
"#;
        
        let skill = Skill::parse(content, test_path()).unwrap();
        assert_eq!(skill.allowed_tools, Some("Bash(git:*) Read".to_string()));
    }
