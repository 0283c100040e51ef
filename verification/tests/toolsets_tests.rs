use g3_verify::toolsets::{generate_toolsets_prompt, get_toolset, list_toolset_names};
use g3_verify::xml::escape_xml;


#[test]
fn test_get_toolset_unknown() {
        let result = get_toolset("nonexistent");
        assert!(result.is_err());
        let err = result.unwrap_err();
        assert!(err.contains("Unknown toolset"));
        assert!(err.contains("webdriver")); // Should list available toolsets
    }

#[test]
fn test_get_toolset_empty_name() {
        let result = get_toolset("");
        assert!(result.is_err());
        let err = result.unwrap_err();
        assert!(err.contains("cannot be empty"));
    }

#[test]
fn test_get_toolset_whitespace_trimmed() {
        let toolset = get_toolset("  webdriver  ").unwrap();
        assert_eq!(toolset.name, "webdriver");
    }

#[test]
fn test_list_toolset_names() {
        let names = list_toolset_names();
        assert!(names.contains(&"webdriver"));
    }

#[test]
fn test_generate_toolsets_prompt() {
        let prompt = generate_toolsets_prompt();
        assert!(prompt.contains("<available_toolsets>"));
        assert!(prompt.contains("</available_toolsets>"));
        assert!(prompt.contains("<name>webdriver</name>"));
        assert!(prompt.contains("load_toolset"));
    }

#[test]
fn toolsets_test_xml_escaping() {
        // The current toolsets don't have special chars, but test the function
        assert_eq!(escape_xml("<test>"), "&lt;test&gt;");
        assert_eq!(escape_xml("a & b"), "a &amp; b");
    }

#[test]
fn test_list_toolset_names_includes_research() {
        let names = list_toolset_names();
        assert!(names.contains(&"research"));
        assert!(names.contains(&"webdriver"));
    }

#[test]
fn test_get_toolset_webdriver() {
        let toolset = get_toolset("webdriver").unwrap();
        assert_eq!(toolset.name, "webdriver");
        assert!(!toolset.description.is_empty());
    }

#[test]
fn test_get_toolset_research() {
        let toolset = get_toolset("research").unwrap();
        assert_eq!(toolset.name, "research");
        assert!(!toolset.description.is_empty());
    }
