use g3_verify::skills::{discover_skills, get_embedded_skill, get_embedded_skills};


#[test]
fn test_embedded_skills_empty() {
        // Currently no embedded skills - research was moved to first-class tool
        let skills = get_embedded_skills();
        assert!(skills.is_empty(), "No embedded skills expected");
    }

#[test]
fn test_get_nonexistent_skill() {
        assert!(get_embedded_skill("nonexistent").is_none());
    }

#[test]
fn test_discover_embedded_skills() {
        // With no directories and no embedded skills, should return empty
        let skills = discover_skills(Vec::new());
        
        // No embedded skills currently (research was moved to first-class tool)
        assert!(skills.is_empty(), "Should have no skills when no directories provided");
    }

#[test]
fn test_nonexistent_directory() {
        let skills = discover_skills(Vec::new());
        // No embedded skills, so should be empty
        assert!(skills.is_empty());
    }
