//! The bytes that stand for a configuration in a fingerprint. Every part is
//! written with its length or its kind in front, so that different
//! configurations give different bytes.

use crate::config::{
    entries_view, lemma_entries_view, lemma_values_view, values_view, ConfigEntries, ConfigKeyValue,
    ConfigValueView, GlobalConfiguration, NewLineKind,
};
use crate::hasher::{absorb, lemma_absorb_concat, IncrementalHasher};
use crate::sorted::sort_entries;
use vstd::bytes::{spec_u64_to_le_bytes, u64_to_le_bytes};
use vstd::prelude::*;
use vstd::utf8::encode_utf8;

verus! {

/// A number in eight bytes, the lowest first.
pub open spec fn u64_bytes(number: u64) -> Seq<u8> {
    spec_u64_to_le_bytes(number)
}

/// A count, as a number.
pub open spec fn len_bytes(count: nat) -> Seq<u8> {
    u64_bytes(count as u64)
}

/// A text: the count of its bytes, then the bytes.
pub open spec fn text_bytes(text: Seq<char>) -> Seq<u8> {
    len_bytes(encode_utf8(text).len()) + encode_utf8(text)
}

/// A signed number, moved into the unsigned range.
pub open spec fn number_bytes(number: i32) -> Seq<u8> {
    u64_bytes((number + 0x8000_0000) as u64)
}

pub open spec fn flag_byte(flag: bool) -> u8 {
    if flag {
        1
    } else {
        0
    }
}

/// A configuration value: a byte for its kind, then its content.
pub open spec fn value_bytes(value: ConfigValueView) -> Seq<u8>
    decreases value,
{
    match value {
        ConfigValueView::String(text) => seq![0u8] + text_bytes(text),
        ConfigValueView::Number(number) => seq![1u8] + number_bytes(number),
        ConfigValueView::Bool(flag) => seq![2u8] + seq![flag_byte(flag)],
        ConfigValueView::Array(items) => seq![3u8] + len_bytes(items.len()) + values_bytes(items),
        ConfigValueView::Object(entries) => seq![4u8] + len_bytes(entries.len()) + entries_bytes(
            entries,
        ),
        ConfigValueView::Null => seq![5u8],
    }
}

/// The values of a list, one after the other.
pub open spec fn values_bytes(items: Seq<ConfigValueView>) -> Seq<u8>
    decreases items,
{
    if items.len() == 0 {
        Seq::empty()
    } else {
        value_bytes(items.first()) + values_bytes(items.drop_first())
    }
}

/// One entry: its key, then its value.
pub open spec fn entry_bytes(entry: (Seq<char>, ConfigValueView)) -> Seq<u8> {
    text_bytes(entry.0) + value_bytes(entry.1)
}

/// The entries of a map, one after the other.
pub open spec fn entries_bytes(entries: ConfigEntries) -> Seq<u8>
    decreases entries,
{
    if entries.len() == 0 {
        Seq::empty()
    } else {
        text_bytes(entries.first().0) + value_bytes(entries.first().1) + entries_bytes(
            entries.drop_first(),
        )
    }
}

/// The texts of a list, one after the other.
pub open spec fn texts_bytes(texts: Seq<Seq<char>>) -> Seq<u8>
    decreases texts.len(),
{
    if texts.len() == 0 {
        Seq::empty()
    } else {
        text_bytes(texts.first()) + texts_bytes(texts.drop_first())
    }
}

pub open spec fn new_line_kind_code(kind: NewLineKind) -> u64 {
    match kind {
        NewLineKind::Auto => 0,
        NewLineKind::LineFeed => 1,
        NewLineKind::CarriageReturnLineFeed => 2,
        NewLineKind::System => 3,
    }
}

/// A setting that may be absent: a byte that says whether it is there, then
/// the setting as a number.
pub open spec fn setting_bytes(setting: Option<u64>) -> Seq<u8> {
    match setting {
        None => seq![0u8],
        Some(number) => seq![1u8] + u64_bytes(number),
    }
}

pub open spec fn line_width_setting(global: GlobalConfiguration) -> Option<u64> {
    match global.line_width {
        None => None,
        Some(width) => Some(width as u64),
    }
}

pub open spec fn use_tabs_setting(global: GlobalConfiguration) -> Option<u64> {
    match global.use_tabs {
        None => None,
        Some(flag) => Some(flag_byte(flag) as u64),
    }
}

pub open spec fn indent_width_setting(global: GlobalConfiguration) -> Option<u64> {
    match global.indent_width {
        None => None,
        Some(width) => Some(width as u64),
    }
}

pub open spec fn new_line_kind_setting(global: GlobalConfiguration) -> Option<u64> {
    match global.new_line_kind {
        None => None,
        Some(kind) => Some(new_line_kind_code(kind)),
    }
}

/// The global configuration: its four settings in the order of declaration.
pub open spec fn global_bytes(global: GlobalConfiguration) -> Seq<u8> {
    setting_bytes(line_width_setting(global)) + setting_bytes(use_tabs_setting(global))
        + setting_bytes(indent_width_setting(global)) + setting_bytes(
        new_line_kind_setting(global),
    )
}

/// A raw configuration: the count of its entries, then the entries in
/// ascending order of their keys.
pub open spec fn raw_bytes(raw: ConfigEntries) -> Seq<u8> {
    len_bytes(raw.len()) + entries_bytes(sort_entries(raw))
}

/// The file associations of a plugin: a byte that says whether it has any of
/// its own, then their count and the patterns.
pub open spec fn associations_bytes(associations: Option<Seq<Seq<char>>>) -> Seq<u8> {
    match associations {
        None => seq![0u8],
        Some(patterns) => seq![1u8] + len_bytes(patterns.len()) + texts_bytes(patterns),
    }
}

/// All of a plugin that bears on what it does to a file: its name and
/// version, its raw configuration, its associations and the global
/// configuration.
pub open spec fn plugin_bytes(
    name: Seq<char>,
    version: Seq<char>,
    raw: ConfigEntries,
    associations: Option<Seq<Seq<char>>>,
    global: GlobalConfiguration,
) -> Seq<u8> {
    text_bytes(name) + text_bytes(version) + raw_bytes(raw) + associations_bytes(associations)
        + global_bytes(global)
}

/// Appending a value to a list appends its bytes.
pub proof fn lemma_values_bytes_push(items: Seq<ConfigValueView>, value: ConfigValueView)
    ensures
        values_bytes(items.push(value)) == values_bytes(items) + value_bytes(value),
    decreases items.len(),
{
    let all = items.push(value);
    if items.len() == 0 {
        assert(all.drop_first() =~= Seq::<ConfigValueView>::empty());
        assert(values_bytes(Seq::<ConfigValueView>::empty()) =~= Seq::<u8>::empty());
        assert(values_bytes(all) =~= value_bytes(value) + Seq::<u8>::empty());
    } else {
        lemma_values_bytes_push(items.drop_first(), value);
        assert(all.drop_first() =~= items.drop_first().push(value));
        assert(values_bytes(all) =~= values_bytes(items) + value_bytes(value));
    }
}

/// Appending an entry to a map appends its bytes.
pub proof fn lemma_entries_bytes_push(entries: ConfigEntries, entry: (Seq<char>, ConfigValueView))
    ensures
        entries_bytes(entries.push(entry)) == entries_bytes(entries) + entry_bytes(entry),
    decreases entries.len(),
{
    let all = entries.push(entry);
    if entries.len() == 0 {
        assert(all.drop_first() =~= ConfigEntries::empty());
        assert(entries_bytes(ConfigEntries::empty()) =~= Seq::<u8>::empty());
        assert(entries_bytes(all) =~= entry_bytes(entry) + Seq::<u8>::empty());
    } else {
        lemma_entries_bytes_push(entries.drop_first(), entry);
        assert(all.drop_first() =~= entries.drop_first().push(entry));
        assert(entries_bytes(all) =~= entries_bytes(entries) + entry_bytes(entry));
    }
}

/// Appending a text to a list appends its bytes.
pub proof fn lemma_texts_bytes_push(texts: Seq<Seq<char>>, text: Seq<char>)
    ensures
        texts_bytes(texts.push(text)) == texts_bytes(texts) + text_bytes(text),
    decreases texts.len(),
{
    let all = texts.push(text);
    if texts.len() == 0 {
        assert(all.drop_first() =~= Seq::<Seq<char>>::empty());
        assert(texts_bytes(Seq::<Seq<char>>::empty()) =~= Seq::<u8>::empty());
        assert(texts_bytes(all) =~= text_bytes(text) + Seq::<u8>::empty());
    } else {
        lemma_texts_bytes_push(texts.drop_first(), text);
        assert(all.drop_first() =~= texts.drop_first().push(text));
        assert(texts_bytes(all) =~= texts_bytes(texts) + text_bytes(text));
    }
}

/// Feeds a number.
pub fn write_u64(hasher: &mut IncrementalHasher, number: u64)
    ensures
        final(hasher).digest() == absorb(old(hasher).digest(), u64_bytes(number)),
{
    let bytes = u64_to_le_bytes(number);
    hasher.write(bytes.as_slice());
}

/// Feeds a count.
pub fn write_len(hasher: &mut IncrementalHasher, count: usize)
    ensures
        final(hasher).digest() == absorb(old(hasher).digest(), len_bytes(count as nat)),
{
    write_u64(hasher, count as u64);
}

/// Feeds a text.
pub fn write_text(hasher: &mut IncrementalHasher, text: &str)
    ensures
        final(hasher).digest() == absorb(old(hasher).digest(), text_bytes(text@)),
{
    let bytes = text.as_bytes();
    let ghost start = hasher.digest();
    write_len(hasher, bytes.len());
    hasher.write(bytes);
    proof {
        lemma_absorb_concat(start, len_bytes(bytes@.len()), bytes@);
    }
}

/// Feeds a setting that may be absent.
pub fn write_setting(hasher: &mut IncrementalHasher, setting: Option<u64>)
    ensures
        final(hasher).digest() == absorb(old(hasher).digest(), setting_bytes(setting)),
{
    let ghost start = hasher.digest();
    match setting {
        None => {
            hasher.write_u8(0);
        },
        Some(number) => {
            hasher.write_u8(1);
            write_u64(hasher, number);
            proof {
                lemma_absorb_concat(start, seq![1u8], u64_bytes(number));
            }
        },
    }
}

/// Feeds the global configuration.
pub fn write_global(hasher: &mut IncrementalHasher, global: &GlobalConfiguration)
    ensures
        final(hasher).digest() == absorb(old(hasher).digest(), global_bytes(*global)),
{
    let ghost start = hasher.digest();
    let line_width: Option<u64> = match global.line_width {
        None => None,
        Some(width) => Some(width as u64),
    };
    let use_tabs: Option<u64> = match global.use_tabs {
        None => None,
        Some(flag) => Some(if flag { 1 } else { 0 }),
    };
    let indent_width: Option<u64> = match global.indent_width {
        None => None,
        Some(width) => Some(width as u64),
    };
    let new_line_kind: Option<u64> = match global.new_line_kind {
        None => None,
        Some(NewLineKind::Auto) => Some(0),
        Some(NewLineKind::LineFeed) => Some(1),
        Some(NewLineKind::CarriageReturnLineFeed) => Some(2),
        Some(NewLineKind::System) => Some(3),
    };
    write_setting(hasher, line_width);
    write_setting(hasher, use_tabs);
    write_setting(hasher, indent_width);
    write_setting(hasher, new_line_kind);
    proof {
        let a = setting_bytes(line_width);
        let b = setting_bytes(use_tabs);
        let c = setting_bytes(indent_width);
        let d = setting_bytes(new_line_kind);
        lemma_absorb_concat(start, a, b);
        lemma_absorb_concat(start, a + b, c);
        lemma_absorb_concat(start, a + b + c, d);
    }
}

/// Feeds a configuration value.
pub fn write_value(hasher: &mut IncrementalHasher, value: &ConfigKeyValue)
    ensures
        final(hasher).digest() == absorb(old(hasher).digest(), value_bytes(value@)),
    decreases value,
{
    let ghost start = hasher.digest();
    match value {
        ConfigKeyValue::String(text) => {
            hasher.write_u8(0);
            write_text(hasher, text.as_str());
            proof {
                lemma_absorb_concat(start, seq![0u8], text_bytes(text@));
            }
        },
        ConfigKeyValue::Number(number) => {
            hasher.write_u8(1);
            let moved: u64 = (*number as i64 + 0x8000_0000) as u64;
            write_u64(hasher, moved);
            proof {
                lemma_absorb_concat(start, seq![1u8], number_bytes(*number));
            }
        },
        ConfigKeyValue::Bool(flag) => {
            hasher.write_u8(2);
            hasher.write_u8(if *flag { 1 } else { 0 });
            proof {
                lemma_absorb_concat(start, seq![2u8], seq![flag_byte(*flag)]);
            }
        },
        ConfigKeyValue::Array(items) => {
            proof {
                lemma_values_view(items@);
            }
            let ghost views = values_view(items@);
            hasher.write_u8(3);
            write_len(hasher, items.len());
            let ghost head = seq![3u8] + len_bytes(views.len());
            proof {
                lemma_absorb_concat(start, seq![3u8], len_bytes(views.len()));
                assert(head + values_bytes(views.take(0)) =~= head);
            }
            let mut i: usize = 0;
            while i < items.len()
                invariant
                    i <= items.len(),
                    views == values_view(items@),
                    views.len() == items.len(),
                    forall|j: int| 0 <= j < items.len() ==> (#[trigger] views[j]) == items[j]@,
                    hasher.digest() == absorb(start, head + values_bytes(views.take(i as int))),
                    forall|j: int| 0 <= j < items.len() ==> decreases_to!(value => #[trigger] items[j]),
                decreases items.len() - i,
            {
                let ghost done = views.take(i as int);
                write_value(hasher, &items[i]);
                proof {
                    lemma_values_bytes_push(done, views[i as int]);
                    assert(views.take(i + 1) =~= done.push(views[i as int]));
                    lemma_absorb_concat(start, head + values_bytes(done), value_bytes(views[i as int]));
                    assert(head + values_bytes(done) + value_bytes(views[i as int]) =~= head + (
                    values_bytes(done) + value_bytes(views[i as int])));
                }
                i += 1;
            }
            proof {
                assert(views.take(i as int) =~= views);
            }
        },
        ConfigKeyValue::Object(map) => {
            proof {
                lemma_entries_view(map.entries@);
            }
            let ghost views = entries_view(map.entries@);
            hasher.write_u8(4);
            write_len(hasher, map.entries.len());
            let ghost head = seq![4u8] + len_bytes(views.len());
            proof {
                lemma_absorb_concat(start, seq![4u8], len_bytes(views.len()));
                assert(head + entries_bytes(views.take(0)) =~= head);
            }
            let mut i: usize = 0;
            while i < map.entries.len()
                invariant
                    i <= map.entries.len(),
                    views == entries_view(map.entries@),
                    views.len() == map.entries.len(),
                    forall|j: int|
                        0 <= j < map.entries.len() ==> (#[trigger] views[j]) == (
                            map.entries[j].0@,
                            map.entries[j].1@,
                        ),
                    hasher.digest() == absorb(start, head + entries_bytes(views.take(i as int))),
                    forall|j: int|
                        0 <= j < map.entries.len() ==> decreases_to!(value => (#[trigger] map.entries[j]).1),
                decreases map.entries.len() - i,
            {
                let ghost done = views.take(i as int);
                let ghost middle = hasher.digest();
                write_text(hasher, map.entries[i].0.as_str());
                write_value(hasher, &map.entries[i].1);
                proof {
                    let entry = views[i as int];
                    lemma_entries_bytes_push(done, entry);
                    assert(views.take(i + 1) =~= done.push(entry));
                    lemma_absorb_concat(middle, text_bytes(entry.0), value_bytes(entry.1));
                    lemma_absorb_concat(start, head + entries_bytes(done), entry_bytes(entry));
                    assert(head + entries_bytes(done) + entry_bytes(entry) =~= head + (entries_bytes(
                        done,
                    ) + entry_bytes(entry)));
                }
                i += 1;
            }
            proof {
                assert(views.take(i as int) =~= views);
            }
        },
        ConfigKeyValue::Null => {
            hasher.write_u8(5);
        },
    }
}

} // verus!
