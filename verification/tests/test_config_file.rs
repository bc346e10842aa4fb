use lazydot::config::{Config, Defaults, DuplicateBehavior, OnDelinkBehavior};
use lazydot::config_file::{updated_config_text, ConfigFileError};

fn config() -> Config {
    Config {
        defaults: Defaults {
            on_duplicate: DuplicateBehavior::OverwriteHome,
            on_delink: OnDelinkBehavior::Keep,
        },
        dotfolder_path: "~/.dots".to_string(),
        paths: vec!["~/.bashrc".to_string(), "~/.config/nvim".to_string()],
    }
}

#[test]
fn config_written_into_existing_file() {
    let content = "# my config\ndotfolder_path = \"~/.dotfiles\"\npaths = []\n\n[defaults]\non_duplicate = \"ask\"\non_delink = \"remove\"\n";
    let text = updated_config_text(content, &config()).unwrap();
    assert!(text.starts_with("# my config\n"));
    let value: toml::Value = toml::from_str(&text).unwrap();
    assert_eq!(value["dotfolder_path"].as_str(), Some("~/.dots"));
    let paths: Vec<&str> = value["paths"].as_array().unwrap().iter().map(|v| v.as_str().unwrap()).collect();
    assert_eq!(paths, vec!["~/.bashrc", "~/.config/nvim"]);
    assert_eq!(value["defaults"]["on_duplicate"].as_str(), Some("overwritehome"));
    assert_eq!(value["defaults"]["on_delink"].as_str(), Some("keep"));
}

#[test]
fn config_written_into_empty_file() {
    let text = updated_config_text("", &config()).unwrap();
    let value: toml::Value = toml::from_str(&text).unwrap();
    assert_eq!(value["defaults"]["on_delink"].as_str(), Some("keep"));
}

#[test]
fn bad_files_are_reported() {
    assert_eq!(updated_config_text("paths = [", &config()), Err(ConfigFileError::NotToml));
    assert_eq!(updated_config_text("defaults = 3\n", &config()), Err(ConfigFileError::DefaultsNotTable));
}
