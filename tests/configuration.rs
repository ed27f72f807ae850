use autocopier::config::{resolve_configuration, JsonAliases, JsonConfiguration, JsonFileDescription};
use autocopier::description::StepInChain;
use autocopier::text::{contains_multiple, extract_multiple, simplify};
use std::path::PathBuf;

fn alias(name: &str, replacement: &str) -> JsonAliases {
    JsonAliases { name: String::from(name), replacement: String::from(replacement) }
}

fn file(from: &str, through: &str, to: &str) -> JsonFileDescription {
    JsonFileDescription { from: String::from(from), through: String::from(through), to: String::from(to) }
}

#[test]
fn test_global_aliases() {
    let json = JsonConfiguration {
        aliases: Some(vec![alias("project-name", "autocopier")]),
        from_aliases: None,
        to_aliases: None,
        files: vec![file(
            ".\\@project-name\\configuration.json",
            ".\\@project-name\\configuration_copy_middle.json",
            ".\\@project-name\\configuration_copy.json",
        )],
    };
    let configuration = resolve_configuration(&json, StepInChain::Start);
    assert_eq!(configuration.files.len(), 1);
    assert_eq!(PathBuf::from(".\\autocopier\\configuration.json"), PathBuf::from(&configuration.files[0].from));
    assert_eq!(
        PathBuf::from(".\\autocopier\\configuration_copy_middle.json"),
        PathBuf::from(&configuration.files[0].to)
    );
}

#[test]
fn test_from_aliases() {
    let json = JsonConfiguration {
        aliases: Some(vec![]),
        from_aliases: Some(vec![alias("project-name", "autocopier")]),
        to_aliases: Some(vec![alias("project-name", "wrongcopier")]),
        files: vec![file(
            ".\\@project-name\\configuration.json",
            ".\\@project-name\\configuration_copy_middle.json",
            ".\\@project-name\\configuration_copy.json",
        )],
    };
    let configuration = resolve_configuration(&json, StepInChain::Start);
    assert_eq!(configuration.files.len(), 1);
    assert_eq!(PathBuf::from(".\\autocopier\\configuration.json"), PathBuf::from(&configuration.files[0].from));
    assert_eq!(
        PathBuf::from(".\\autocopier\\configuration_copy_middle.json"),
        PathBuf::from(&configuration.files[0].to)
    );
}

#[test]
fn test_to_aliases() {
    let json = JsonConfiguration {
        aliases: None,
        from_aliases: Some(vec![alias("project-name", "autocopier")]),
        to_aliases: Some(vec![alias("project-name", "tocopier")]),
        files: vec![file(
            ".\\@project-name\\configuration.json",
            ".\\@project-name\\configuration_copy_middle.json",
            ".\\@project-name\\configuration_copy.json",
        )],
    };
    let configuration = resolve_configuration(&json, StepInChain::End);
    assert_eq!(configuration.files.len(), 1);
    assert_eq!(
        PathBuf::from(".\\tocopier\\configuration_copy_middle.json"),
        PathBuf::from(&configuration.files[0].from)
    );
    assert_eq!(PathBuf::from(".\\tocopier\\configuration_copy.json"), PathBuf::from(&configuration.files[0].to));
}

#[test]
fn test_multiple() {
    let json = JsonConfiguration {
        aliases: None,
        from_aliases: None,
        to_aliases: None,
        files: vec![file(
            "\\test\\executable.{exe,pdb}",
            "\\othertest\\executable.{exe,pdb}",
            "\\moreothertest\\executable.{exe,pdb}",
        )],
    };
    let configuration = resolve_configuration(&json, StepInChain::Start);
    assert_eq!(configuration.files.len(), 2);
    assert_eq!(PathBuf::from("\\test\\executable.exe"), PathBuf::from(&configuration.files[0].from));
    assert_eq!(PathBuf::from("\\othertest\\executable.exe"), PathBuf::from(&configuration.files[0].to));
    assert_eq!(PathBuf::from("\\test\\executable.pdb"), PathBuf::from(&configuration.files[1].from));
    assert_eq!(PathBuf::from("\\othertest\\executable.pdb"), PathBuf::from(&configuration.files[1].to));
}

#[test]
fn test_simplify() {
    let start_string = "Test\\\\\\Extra\\\\More\\";
    let result = simplify(start_string);
    let expected = "Test\\Extra\\More\\";
    assert_eq!(expected, &result);
}

#[test]
fn test_simply_configuration() {
    let json = JsonConfiguration {
        aliases: Some(vec![
            alias("shared", "\\FpShare\\autocopier\\Files\\"),
            alias("exedotnet", "C:\\exedotnet\\"),
        ]),
        from_aliases: Some(vec![
            alias("drive", "C:"),
            alias("workspace", "C:\\workspaces\\GroupFuelPos\\git-FuelPos_53.90.9999999_stable\\"),
            alias("DatabaseServer", "\\Common\\DatabaseServer\\Server\\bin\\Debug\\Framework\\"),
        ]),
        to_aliases: Some(vec![alias("drive", "Z:")]),
        files: vec![file(
            "@workspace\\@DatabaseServer\\DatabaseServer.{exe,pdb}",
            "@drive\\@shared\\DatabaseServer\\DatabaseServer.{exe,pdb}",
            "@exedotnet\\DatabaseServer\\DatabaseServer.{exe,pdb}",
        )],
    };
    let configuration = resolve_configuration(&json, StepInChain::Start);
    assert_eq!(configuration.files.len(), 2);
    assert_eq!(
        "C:\\workspaces\\GroupFuelPos\\git-FuelPos_53.90.9999999_stable\\Common\\DatabaseServer\\Server\\bin\\Debug\\Framework\\DatabaseServer.exe",
        PathBuf::from(&configuration.files[0].from).to_string_lossy()
    );
}

#[test]
fn test_contains_multiple() {
    let multiple_str = "Th{is, at}";
    assert!(contains_multiple(multiple_str));

    let non_multiple_str = "This";
    assert!(!contains_multiple(non_multiple_str));
}

#[test]
fn test_extract_multiples_single() {
    let multiple_str = "Th{is,at}";
    let result = extract_multiple(multiple_str);

    let this = String::from("This");
    let that = String::from("That");

    assert!(result.contains(&this));
    assert!(result.contains(&that));
}

#[test]
fn test_extract_multiples_multiple() {
    let multiple_str = "Th{is,at} and th{at,is}";
    let result = extract_multiple(multiple_str);

    let this_and_this = String::from("This and this");
    let this_and_that = String::from("This and that");
    let that_and_that = String::from("That and that");
    let that_and_this = String::from("That and this");

    assert!(result.contains(&this_and_that));
    assert!(result.contains(&this_and_this));
    assert!(result.contains(&that_and_that));
    assert!(result.contains(&that_and_this));
}

#[test]
fn extract_keeps_piece_order_and_empty_pieces() {
    assert_eq!(extract_multiple("a{b,,c}d"), vec!["abd", "ad", "acd"]);
    assert_eq!(
        extract_multiple("{x,y}-{1,2}"),
        vec!["x-1", "x-2", "y-1", "y-2"]
    );
}

#[test]
fn extract_without_group_is_identity() {
    assert_eq!(extract_multiple("plain"), vec!["plain"]);
    assert_eq!(extract_multiple("a}b{c"), vec!["a}b{c"]);
    assert_eq!(extract_multiple(""), vec![""]);
}

#[test]
fn simplify_edge_cases() {
    assert_eq!(simplify(""), "");
    assert_eq!(simplify("\\\\\\\\"), "\\");
    assert_eq!(simplify("a\\b"), "a\\b");
}

#[test]
fn later_alias_of_same_name_wins() {
    let json = JsonConfiguration {
        aliases: Some(vec![alias("d", "one"), alias("d", "two")]),
        from_aliases: None,
        to_aliases: None,
        files: vec![file("@d\\x", "@d\\y", "@d\\z")],
    };
    let configuration = resolve_configuration(&json, StepInChain::End);
    assert_eq!(configuration.files.len(), 1);
    assert_eq!(configuration.files[0].from, "two\\y");
    assert_eq!(configuration.files[0].to, "two\\z");
}

#[test]
fn unequal_expansions_are_paired_as_far_as_both_reach() {
    let json = JsonConfiguration {
        aliases: None,
        from_aliases: None,
        to_aliases: None,
        files: vec![file("f.{a,b,c}", "g.{a,b}", "h"), file("k", "l", "m")],
    };
    let configuration = resolve_configuration(&json, StepInChain::Start);
    assert_eq!(configuration.files.len(), 3);
    assert_eq!(configuration.files[1].from, "f.b");
    assert_eq!(configuration.files[1].to, "g.b");
    assert_eq!(configuration.files[2].from, "k");
    assert_eq!(configuration.files[2].to, "l");
}
