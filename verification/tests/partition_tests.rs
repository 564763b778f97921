use plugin_scopes::partition::{
    get_file_paths_by_plugins_and_err_if_empty, MatchedFile, PartitionError, PathsByPlugins,
};
use std::path::PathBuf;

fn file(path: &str, plugins: &[&str]) -> MatchedFile {
    MatchedFile {
        file_path: PathBuf::from(path),
        plugin_names: plugins.iter().map(|name| name.to_string()).collect(),
    }
}

fn group(plugins: &[&str], paths: &[&str]) -> PathsByPlugins {
    PathsByPlugins {
        plugin_names: plugins.iter().map(|name| name.to_string()).collect(),
        file_paths: paths.iter().map(PathBuf::from).collect(),
    }
}

#[test]
fn files_are_parted_by_their_plugins() {
    let parted = get_file_paths_by_plugins_and_err_if_empty(vec![
        file("a.ts", &["typescript"]),
        file("readme.md", &["markdown"]),
        file("b.ts", &["typescript"]),
        file("c.tsx", &["typescript", "prettier"]),
        file("notes.md", &["markdown"]),
        file("d.ts", &["typescript"]),
    ]);
    assert_eq!(
        parted,
        Ok(vec![
            group(&["typescript"], &["a.ts", "b.ts", "d.ts"]),
            group(&["markdown"], &["readme.md", "notes.md"]),
            group(&["typescript", "prettier"], &["c.tsx"]),
        ])
    );
}

#[test]
fn the_order_of_the_plugins_tells_groups_apart() {
    let parted = get_file_paths_by_plugins_and_err_if_empty(vec![
        file("a.vue", &["typescript", "css"]),
        file("b.vue", &["css", "typescript"]),
        file("c.vue", &["typescript", "css"]),
    ]);
    assert_eq!(
        parted,
        Ok(vec![
            group(&["typescript", "css"], &["a.vue", "c.vue"]),
            group(&["css", "typescript"], &["b.vue"]),
        ])
    );
}

#[test]
fn one_file_is_one_group() {
    let parted = get_file_paths_by_plugins_and_err_if_empty(vec![file("a.ts", &["typescript"])]);
    assert_eq!(parted, Ok(vec![group(&["typescript"], &["a.ts"])]));
}

#[test]
fn no_files_is_a_failure() {
    assert_eq!(get_file_paths_by_plugins_and_err_if_empty(vec![]), Err(PartitionError::NoFilesFound));
}

#[test]
fn a_file_without_a_plugin_is_a_failure() {
    let parted = get_file_paths_by_plugins_and_err_if_empty(vec![
        file("a.ts", &["typescript"]),
        file("image.png", &[]),
        file("b.ts", &["typescript"]),
        file("movie.mp4", &[]),
    ]);
    assert_eq!(parted, Err(PartitionError::NoPluginForFile(PathBuf::from("image.png"))));
    let only = get_file_paths_by_plugins_and_err_if_empty(vec![file("image.png", &[])]);
    assert_eq!(only, Err(PartitionError::NoPluginForFile(PathBuf::from("image.png"))));
}
