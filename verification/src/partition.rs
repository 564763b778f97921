//! The files of a configuration, parted by the plugins that format them.

use crate::vectors::{names_eq, names_view, reversed};
use std::path::PathBuf;
use vstd::prelude::*;

verus! {

/// A file that was found, with the names of the plugins that format it,
/// first to last.
#[derive(Debug, PartialEq, Eq)]
pub struct MatchedFile {
    pub file_path: PathBuf,
    pub plugin_names: Vec<String>,
}

/// The files that one list of plugins formats, in the order in which they
/// were found.
#[derive(Debug, PartialEq, Eq)]
pub struct PathsByPlugins {
    pub plugin_names: Vec<String>,
    pub file_paths: Vec<PathBuf>,
}

/// Why files could not be parted.
#[derive(Debug, PartialEq, Eq)]
pub enum PartitionError {
    /// There is no file.
    NoFilesFound,
    /// No plugin formats this file.
    NoPluginForFile(PathBuf),
}

/// A file: its path and the names of its plugins.
pub type FileView = (PathBuf, Seq<Seq<char>>);

/// A group: the names of its plugins and the paths of its files.
pub type GroupView = (Seq<Seq<char>>, Seq<PathBuf>);

impl View for MatchedFile {
    type V = FileView;

    open spec fn view(&self) -> FileView {
        (self.file_path, names_view(self.plugin_names))
    }
}

impl View for PathsByPlugins {
    type V = GroupView;

    open spec fn view(&self) -> GroupView {
        (names_view(self.plugin_names), self.file_paths@)
    }
}

/// The files of a list, as mathematics.
pub open spec fn files_view(files: Seq<MatchedFile>) -> Seq<FileView> {
    files.map_values(|file: MatchedFile| file@)
}

/// The groups of a list, as mathematics.
pub open spec fn groups_view(groups: Seq<PathsByPlugins>) -> Seq<GroupView> {
    groups.map_values(|group: PathsByPlugins| group@)
}

/// The place of the first file that no plugin formats, or the count of the
/// files where every file has a plugin.
pub open spec fn first_unmatched(files: Seq<FileView>) -> int
    decreases files.len(),
{
    if files.len() == 0 {
        0
    } else if files.first().1.len() == 0 {
        0
    } else {
        1 + first_unmatched(files.drop_first())
    }
}

/// The place of the group of the plugins `names`, or the count of the groups
/// where there is none.
pub open spec fn group_place(groups: Seq<GroupView>, names: Seq<Seq<char>>) -> int
    decreases groups.len(),
{
    if groups.len() == 0 {
        0
    } else if groups.first().0 == names {
        0
    } else {
        1 + group_place(groups.drop_first(), names)
    }
}

/// The groups after one more file: it joins the group of its plugins, last,
/// or begins that group behind the others.
pub open spec fn add_file(groups: Seq<GroupView>, file: FileView) -> Seq<GroupView> {
    let place = group_place(groups, file.1);
    if place < groups.len() {
        groups.update(place, (groups[place].0, groups[place].1.push(file.0)))
    } else {
        groups.push((file.1, seq![file.0]))
    }
}

/// The files parted by their plugins: one group for each list of plugins, in
/// the order in which the lists were first met.
pub open spec fn group_files(files: Seq<FileView>) -> Seq<GroupView>
    decreases files.len(),
{
    if files.len() == 0 {
        Seq::empty()
    } else {
        add_file(group_files(files.drop_last()), files.last())
    }
}

/// `first_unmatched` is the least place of a file without a plugin.
pub proof fn lemma_first_unmatched(files: Seq<FileView>)
    ensures
        0 <= first_unmatched(files) <= files.len(),
        first_unmatched(files) < files.len() ==> files[first_unmatched(files)].1.len() == 0,
        forall|i: int| 0 <= i < first_unmatched(files) ==> (#[trigger] files[i]).1.len() > 0,
    decreases files.len(),
{
    if files.len() > 0 && files.first().1.len() != 0 {
        let rest = files.drop_first();
        lemma_first_unmatched(rest);
        assert forall|i: int| 0 <= i < first_unmatched(files) implies (#[trigger] files[i]).1.len()
            > 0 by {
            if i > 0 {
                assert(files[i] == rest[i - 1]);
            }
        }
    }
}

/// `group_place` is the least place of a group of the plugins `names`.
pub proof fn lemma_group_place(groups: Seq<GroupView>, names: Seq<Seq<char>>)
    ensures
        0 <= group_place(groups, names) <= groups.len(),
        group_place(groups, names) < groups.len() ==> groups[group_place(groups, names)].0 == names,
        forall|i: int| 0 <= i < group_place(groups, names) ==> (#[trigger] groups[i]).0 != names,
    decreases groups.len(),
{
    if groups.len() > 0 && groups.first().0 != names {
        let rest = groups.drop_first();
        lemma_group_place(rest, names);
        assert forall|i: int| 0 <= i < group_place(groups, names) implies (#[trigger] groups[i]).0
            != names by {
            if i > 0 {
                assert(groups[i] == rest[i - 1]);
            }
        }
    }
}

/// No two groups are of the same plugins.
pub open spec fn groups_distinct(groups: Seq<GroupView>) -> bool {
    forall|i: int, j: int|
        0 <= i < j < groups.len() ==> (#[trigger] groups[i]).0 != (#[trigger] groups[j]).0
}

/// Every file stands in the group of its plugins.
pub open spec fn files_are_kept(groups: Seq<GroupView>, files: Seq<FileView>) -> bool {
    forall|i: int|
        0 <= i < files.len() ==> {
            let place = group_place(groups, (#[trigger] files[i]).1);
            place < groups.len() && groups[place].1.contains(files[i].0)
        }
}

/// Every path of a group is that of a file with the plugins of the group.
pub open spec fn groups_hold_files_only(groups: Seq<GroupView>, files: Seq<FileView>) -> bool {
    forall|g: int, k: int|
        0 <= g < groups.len() && 0 <= k < groups[g].1.len() ==> files.contains(
            (#[trigger] groups[g].1[k], groups[g].0),
        )
}

/// Parting files gives one group for each list of plugins, and every group
/// holds the files of its plugins and no others.
pub proof fn lemma_group_files(files: Seq<FileView>)
    ensures
        groups_distinct(group_files(files)),
        files_are_kept(group_files(files), files),
        groups_hold_files_only(group_files(files), files),
    decreases files.len(),
{
    if files.len() > 0 {
        let front = files.drop_last();
        let file = files.last();
        let before = group_files(front);
        let after = group_files(files);
        let place = group_place(before, file.1);
        lemma_group_files(front);
        lemma_group_place(before, file.1);
        assert forall|i: int, j: int| 0 <= i < j < after.len() implies (#[trigger] after[i]).0 != (
        #[trigger] after[j]).0 by {
            if place < before.len() {
                assert(after[i].0 == before[i].0);
                assert(after[j].0 == before[j].0);
            } else if j == before.len() {
                assert(after[i] == before[i]);
            } else {
                assert(after[i] == before[i]);
                assert(after[j] == before[j]);
            }
        }
        assert forall|i: int| 0 <= i < files.len() implies {
            let found = group_place(after, (#[trigger] files[i]).1);
            found < after.len() && after[found].1.contains(files[i].0)
        } by {
            let names = files[i].1;
            lemma_group_place(after, names);
            if i < front.len() {
                assert(files[i] == front[i]);
                let old_place = group_place(before, names);
                lemma_group_place(before, names);
                assert(before[old_place].1.contains(front[i].0));
                let k = choose|k: int|
                    0 <= k < before[old_place].1.len() && before[old_place].1[k] == front[i].0;
                assert(after[old_place].0 == names);
                assert(after[old_place].1[k] == front[i].0);
                lemma_same_group(after, names, old_place);
            } else {
                if place < before.len() {
                    assert(after[place].1[before[place].1.len() as int] == file.0);
                    lemma_same_group(after, names, place);
                } else {
                    assert(after[place].1[0] == file.0);
                    lemma_same_group(after, names, place);
                }
            }
        }
        assert forall|g: int, k: int|
            0 <= g < after.len() && 0 <= k < after[g].1.len() implies files.contains(
            (#[trigger] after[g].1[k], after[g].0),
        ) by {
            if g < before.len() && k < before[g].1.len() {
                assert(after[g].1[k] == before[g].1[k]);
                assert(after[g].0 == before[g].0);
                assert(front.contains((before[g].1[k], before[g].0)));
                let i = choose|i: int| 0 <= i < front.len() && front[i] == (before[g].1[k], before[g].0);
                assert(files[i] == front[i]);
            } else {
                assert(files[files.len() - 1] == file);
                assert((after[g].1[k], after[g].0) == file);
            }
        }
    }
}

/// Among distinct groups, the group of the plugins `names` is found where it
/// stands.
proof fn lemma_same_group(groups: Seq<GroupView>, names: Seq<Seq<char>>, place: int)
    requires
        groups_distinct(groups),
        0 <= place < groups.len(),
        groups[place].0 == names,
    ensures
        group_place(groups, names) == place,
{
    lemma_group_place(groups, names);
}

/// The place of the group of the plugins `names` among `groups`.
fn find_group(groups: &Vec<PathsByPlugins>, names: &Vec<String>) -> (place: usize)
    ensures
        place == group_place(groups_view(groups@), names_view(*names)),
{
    let ghost views = groups_view(groups@);
    proof {
        assert(views.skip(0) =~= views);
    }
    let mut i: usize = 0;
    while i < groups.len()
        invariant
            i <= groups@.len(),
            views == groups_view(groups@),
            group_place(views, names_view(*names)) == i + group_place(
                views.skip(i as int),
                names_view(*names),
            ),
        decreases groups@.len() - i,
    {
        proof {
            let rest = views.skip(i as int);
            assert(rest.first() == groups@[i as int]@);
            assert(rest.drop_first() =~= views.skip(i + 1));
        }
        if names_eq(&groups[i].plugin_names, names) {
            return i;
        }
        i += 1;
    }
    i
}

/// Parts the files by the plugins that format them. It fails where there is
/// no file, and where some file has no plugin: with the first such file.
pub fn get_file_paths_by_plugins_and_err_if_empty(files: Vec<MatchedFile>) -> (parted: Result<
    Vec<PathsByPlugins>,
    PartitionError,
>)
    ensures
        match parted {
            Ok(groups) => {
                &&& files@.len() > 0
                &&& first_unmatched(files_view(files@)) == files@.len()
                &&& groups_view(groups@) == group_files(files_view(files@))
            },
            Err(PartitionError::NoFilesFound) => files@.len() == 0,
            Err(PartitionError::NoPluginForFile(path)) => {
                &&& first_unmatched(files_view(files@)) < files@.len()
                &&& path == files@[first_unmatched(files_view(files@))].file_path
            },
        },
{
    let ghost given = files_view(files@);
    if files.len() == 0 {
        return Err(PartitionError::NoFilesFound);
    }
    let mut rest = reversed(files);
    let mut groups: Vec<PathsByPlugins> = Vec::new();
    let ghost mut taken: int = 0;
    proof {
        assert(given.skip(0) =~= given);
        assert(groups_view(groups@) =~= group_files(given.take(0)));
    }
    while rest.len() > 0
        invariant
            0 <= taken <= given.len(),
            given == files_view(files@),
            rest@.len() == given.len() - taken,
            forall|i: int| 0 <= i < rest@.len() ==> rest@[i] == files@[files@.len() - 1 - i],
            first_unmatched(given) == taken + first_unmatched(given.skip(taken)),
            groups_view(groups@) == group_files(given.take(taken)),
        decreases rest.len(),
    {
        let file = rest.pop().unwrap();
        let ghost before = groups_view(groups@);
        proof {
            assert(file == files@[taken]);
            assert(given[taken] == file@);
            assert(given.skip(taken).first() == file@);
            assert(given.skip(taken).drop_first() =~= given.skip(taken + 1));
            assert(given.take(taken + 1).drop_last() =~= given.take(taken));
            assert(given.take(taken + 1).last() == file@);
            lemma_group_place(before, file@.1);
        }
        if file.plugin_names.len() == 0 {
            return Err(PartitionError::NoPluginForFile(file.file_path));
        }
        let place = find_group(&groups, &file.plugin_names);
        if place < groups.len() {
            groups[place].file_paths.push(file.file_path);
            proof {
                assert(groups_view(groups@) =~= add_file(before, file@));
            }
        } else {
            let mut file_paths: Vec<PathBuf> = Vec::new();
            file_paths.push(file.file_path);
            groups.push(PathsByPlugins { plugin_names: file.plugin_names, file_paths });
            proof {
                assert(groups_view(groups@) =~= add_file(before, file@));
            }
        }
        proof {
            taken = taken + 1;
        }
    }
    proof {
        assert(given.take(taken) =~= given);
        assert(given.skip(taken) =~= Seq::<FileView>::empty());
    }
    Ok(groups)
}

} // verus!
