//! The bytes of a fingerprint can be read in one way only: configurations
//! that differ in anything that is written give different bytes.

use crate::config::{keys_distinct, ConfigEntries, ConfigValueView, GlobalConfiguration};
use crate::encoding::{
    associations_bytes, entries_bytes, flag_byte, global_bytes, indent_width_setting, len_bytes,
    line_width_setting, new_line_kind_setting, number_bytes, plugin_bytes, raw_bytes,
    setting_bytes, text_bytes, texts_bytes, u64_bytes, use_tabs_setting, value_bytes, values_bytes,
};
use crate::plugin::{associations_view, PluginWithConfig};
use crate::scope::scope_bytes;
use crate::sorted::{lemma_sort_entries, same_entries, sort_entries};
use crate::text::lemma_utf8_injective;
use vstd::bytes::{lemma_auto_spec_u64_to_from_le_bytes, spec_u64_from_le_bytes, spec_u64_to_le_bytes};
use vstd::prelude::*;
use vstd::utf8::encode_utf8;

verus! {

/// A count that can be written. Every count of a value in memory can.
pub open spec fn fits(count: nat) -> bool {
    count <= u64::MAX
}

/// A text whose length can be written.
pub open spec fn text_fits(text: Seq<char>) -> bool {
    fits(encode_utf8(text).len())
}

/// A value all of whose lengths can be written.
pub open spec fn value_fits(value: ConfigValueView) -> bool
    decreases value,
{
    match value {
        ConfigValueView::String(text) => text_fits(text),
        ConfigValueView::Array(items) => fits(items.len()) && values_fit(items),
        ConfigValueView::Object(entries) => fits(entries.len()) && entries_fit(entries),
        _ => true,
    }
}

pub open spec fn values_fit(items: Seq<ConfigValueView>) -> bool
    decreases items,
{
    items.len() == 0 || (value_fits(items.first()) && values_fit(items.drop_first()))
}

pub open spec fn entries_fit(entries: ConfigEntries) -> bool
    decreases entries,
{
    entries.len() == 0 || (text_fits(entries.first().0) && value_fits(entries.first().1)
        && entries_fit(entries.drop_first()))
}

pub open spec fn texts_fit(texts: Seq<Seq<char>>) -> bool
    decreases texts.len(),
{
    texts.len() == 0 || (text_fits(texts.first()) && texts_fit(texts.drop_first()))
}

/// What stands behind the first `count` bytes is what was put behind them.
proof fn lemma_split(front: Seq<u8>, rest: Seq<u8>)
    ensures
        (front + rest).subrange(0, front.len() as int) == front,
        (front + rest).skip(front.len() as int) == rest,
{
    assert((front + rest).subrange(0, front.len() as int) =~= front);
    assert((front + rest).skip(front.len() as int) =~= rest);
}

/// Two byte strings of one length that begin two equal strings are equal,
/// and so is what follows them.
proof fn lemma_same_front(a: Seq<u8>, a_rest: Seq<u8>, b: Seq<u8>, b_rest: Seq<u8>)
    requires
        a.len() == b.len(),
        a + a_rest == b + b_rest,
    ensures
        a == b,
        a_rest == b_rest,
{
    lemma_split(a, a_rest);
    lemma_split(b, b_rest);
}

/// A number is read back from its bytes.
pub proof fn lemma_u64_unambiguous(a: u64, a_rest: Seq<u8>, b: u64, b_rest: Seq<u8>)
    requires
        u64_bytes(a) + a_rest == u64_bytes(b) + b_rest,
    ensures
        a == b,
        a_rest == b_rest,
{
    lemma_auto_spec_u64_to_from_le_bytes();
    lemma_same_front(u64_bytes(a), a_rest, u64_bytes(b), b_rest);
    assert(spec_u64_from_le_bytes(spec_u64_to_le_bytes(a)) == a);
    assert(spec_u64_from_le_bytes(spec_u64_to_le_bytes(b)) == b);
}

/// A count is read back from its bytes.
pub proof fn lemma_len_unambiguous(a: nat, a_rest: Seq<u8>, b: nat, b_rest: Seq<u8>)
    requires
        fits(a),
        fits(b),
        len_bytes(a) + a_rest == len_bytes(b) + b_rest,
    ensures
        a == b,
        a_rest == b_rest,
{
    lemma_u64_unambiguous(a as u64, a_rest, b as u64, b_rest);
}

/// A text is read back from its bytes.
pub proof fn lemma_text_unambiguous(a: Seq<char>, a_rest: Seq<u8>, b: Seq<char>, b_rest: Seq<u8>)
    requires
        text_fits(a),
        text_fits(b),
        text_bytes(a) + a_rest == text_bytes(b) + b_rest,
    ensures
        a == b,
        a_rest == b_rest,
{
    let a_bytes = encode_utf8(a);
    let b_bytes = encode_utf8(b);
    assert(text_bytes(a) + a_rest =~= len_bytes(a_bytes.len()) + (a_bytes + a_rest));
    assert(text_bytes(b) + b_rest =~= len_bytes(b_bytes.len()) + (b_bytes + b_rest));
    lemma_len_unambiguous(a_bytes.len(), a_bytes + a_rest, b_bytes.len(), b_bytes + b_rest);
    lemma_same_front(a_bytes, a_rest, b_bytes, b_rest);
    lemma_utf8_injective(a, b);
}

/// A signed number is read back from its bytes.
pub proof fn lemma_number_unambiguous(a: i32, a_rest: Seq<u8>, b: i32, b_rest: Seq<u8>)
    requires
        number_bytes(a) + a_rest == number_bytes(b) + b_rest,
    ensures
        a == b,
        a_rest == b_rest,
{
    lemma_u64_unambiguous((a + 0x8000_0000) as u64, a_rest, (b + 0x8000_0000) as u64, b_rest);
}

/// The byte that says of which kind a value is.
pub open spec fn kind_byte(value: ConfigValueView) -> u8 {
    match value {
        ConfigValueView::String(_) => 0,
        ConfigValueView::Number(_) => 1,
        ConfigValueView::Bool(_) => 2,
        ConfigValueView::Array(_) => 3,
        ConfigValueView::Object(_) => 4,
        ConfigValueView::Null => 5,
    }
}

/// The content of a value: its bytes behind the first.
pub open spec fn content_bytes(value: ConfigValueView) -> Seq<u8> {
    match value {
        ConfigValueView::String(text) => text_bytes(text),
        ConfigValueView::Number(number) => number_bytes(number),
        ConfigValueView::Bool(flag) => seq![flag_byte(flag)],
        ConfigValueView::Array(items) => len_bytes(items.len()) + values_bytes(items),
        ConfigValueView::Object(entries) => len_bytes(entries.len()) + entries_bytes(entries),
        ConfigValueView::Null => Seq::empty(),
    }
}

/// A value is written as its kind and then its content.
proof fn lemma_kind_and_content(value: ConfigValueView, rest: Seq<u8>)
    ensures
        value_bytes(value) + rest == seq![kind_byte(value)] + (content_bytes(value) + rest),
        (value_bytes(value) + rest).len() > 0,
        (value_bytes(value) + rest)[0] == kind_byte(value),
{
    assert(value_bytes(value) + rest =~= seq![kind_byte(value)] + (content_bytes(value) + rest));
}

/// A value is read back from its bytes.
pub proof fn lemma_value_unambiguous(a: ConfigValueView, a_rest: Seq<u8>, b: ConfigValueView, b_rest: Seq<u8>)
    requires
        value_fits(a),
        value_fits(b),
        value_bytes(a) + a_rest == value_bytes(b) + b_rest,
    ensures
        a == b,
        a_rest == b_rest,
    decreases a,
{
    lemma_kind_and_content(a, a_rest);
    lemma_kind_and_content(b, b_rest);
    assert(kind_byte(a) == kind_byte(b));
    lemma_same_front(
        seq![kind_byte(a)],
        content_bytes(a) + a_rest,
        seq![kind_byte(b)],
        content_bytes(b) + b_rest,
    );
    match (a, b) {
        (ConfigValueView::String(a_text), ConfigValueView::String(b_text)) => {
            lemma_text_unambiguous(a_text, a_rest, b_text, b_rest);
        },
        (ConfigValueView::Number(a_number), ConfigValueView::Number(b_number)) => {
            lemma_number_unambiguous(a_number, a_rest, b_number, b_rest);
        },
        (ConfigValueView::Bool(a_flag), ConfigValueView::Bool(b_flag)) => {
            lemma_same_front(seq![flag_byte(a_flag)], a_rest, seq![flag_byte(b_flag)], b_rest);
            assert(seq![flag_byte(a_flag)][0] == seq![flag_byte(b_flag)][0]);
        },
        (ConfigValueView::Array(a_items), ConfigValueView::Array(b_items)) => {
            assert(content_bytes(a) + a_rest =~= len_bytes(a_items.len()) + (values_bytes(a_items)
                + a_rest));
            assert(content_bytes(b) + b_rest =~= len_bytes(b_items.len()) + (values_bytes(b_items)
                + b_rest));
            lemma_len_unambiguous(
                a_items.len(),
                values_bytes(a_items) + a_rest,
                b_items.len(),
                values_bytes(b_items) + b_rest,
            );
            lemma_values_unambiguous(a_items, a_rest, b_items, b_rest);
        },
        (ConfigValueView::Object(a_entries), ConfigValueView::Object(b_entries)) => {
            assert(content_bytes(a) + a_rest =~= len_bytes(a_entries.len()) + (entries_bytes(
                a_entries,
            ) + a_rest));
            assert(content_bytes(b) + b_rest =~= len_bytes(b_entries.len()) + (entries_bytes(
                b_entries,
            ) + b_rest));
            lemma_len_unambiguous(
                a_entries.len(),
                entries_bytes(a_entries) + a_rest,
                b_entries.len(),
                entries_bytes(b_entries) + b_rest,
            );
            lemma_entries_unambiguous(a_entries, a_rest, b_entries, b_rest);
        },
        (ConfigValueView::Null, ConfigValueView::Null) => {
            assert(content_bytes(a) + a_rest =~= a_rest);
            assert(content_bytes(b) + b_rest =~= b_rest);
        },
        _ => {},
    }
}

/// As many values as were written are read back from their bytes.
pub proof fn lemma_values_unambiguous(
    a: Seq<ConfigValueView>,
    a_rest: Seq<u8>,
    b: Seq<ConfigValueView>,
    b_rest: Seq<u8>,
)
    requires
        a.len() == b.len(),
        values_fit(a),
        values_fit(b),
        values_bytes(a) + a_rest == values_bytes(b) + b_rest,
    ensures
        a == b,
        a_rest == b_rest,
    decreases a,
{
    if a.len() == 0 {
        assert(values_bytes(a) + a_rest =~= a_rest);
        assert(values_bytes(b) + b_rest =~= b_rest);
        assert(a =~= b);
    } else {
        assert(values_bytes(a) + a_rest =~= value_bytes(a.first()) + (values_bytes(a.drop_first())
            + a_rest));
        assert(values_bytes(b) + b_rest =~= value_bytes(b.first()) + (values_bytes(b.drop_first())
            + b_rest));
        lemma_value_unambiguous(
            a.first(),
            values_bytes(a.drop_first()) + a_rest,
            b.first(),
            values_bytes(b.drop_first()) + b_rest,
        );
        lemma_values_unambiguous(a.drop_first(), a_rest, b.drop_first(), b_rest);
        assert(a =~= seq![a.first()] + a.drop_first());
        assert(b =~= seq![b.first()] + b.drop_first());
    }
}

/// As many entries as were written are read back from their bytes.
pub proof fn lemma_entries_unambiguous(a: ConfigEntries, a_rest: Seq<u8>, b: ConfigEntries, b_rest: Seq<u8>)
    requires
        a.len() == b.len(),
        entries_fit(a),
        entries_fit(b),
        entries_bytes(a) + a_rest == entries_bytes(b) + b_rest,
    ensures
        a == b,
        a_rest == b_rest,
    decreases a,
{
    if a.len() == 0 {
        assert(entries_bytes(a) + a_rest =~= a_rest);
        assert(entries_bytes(b) + b_rest =~= b_rest);
        assert(a =~= b);
    } else {
        let a_tail = entries_bytes(a.drop_first()) + a_rest;
        let b_tail = entries_bytes(b.drop_first()) + b_rest;
        assert(entries_bytes(a) + a_rest =~= text_bytes(a.first().0) + (value_bytes(a.first().1)
            + a_tail));
        assert(entries_bytes(b) + b_rest =~= text_bytes(b.first().0) + (value_bytes(b.first().1)
            + b_tail));
        lemma_text_unambiguous(
            a.first().0,
            value_bytes(a.first().1) + a_tail,
            b.first().0,
            value_bytes(b.first().1) + b_tail,
        );
        lemma_value_unambiguous(a.first().1, a_tail, b.first().1, b_tail);
        lemma_entries_unambiguous(a.drop_first(), a_rest, b.drop_first(), b_rest);
        assert(a =~= seq![a.first()] + a.drop_first());
        assert(b =~= seq![b.first()] + b.drop_first());
    }
}

/// As many texts as were written are read back from their bytes.
pub proof fn lemma_texts_unambiguous(
    a: Seq<Seq<char>>,
    a_rest: Seq<u8>,
    b: Seq<Seq<char>>,
    b_rest: Seq<u8>,
)
    requires
        a.len() == b.len(),
        texts_fit(a),
        texts_fit(b),
        texts_bytes(a) + a_rest == texts_bytes(b) + b_rest,
    ensures
        a == b,
        a_rest == b_rest,
    decreases a.len(),
{
    if a.len() == 0 {
        assert(texts_bytes(a) + a_rest =~= a_rest);
        assert(texts_bytes(b) + b_rest =~= b_rest);
        assert(a =~= b);
    } else {
        assert(texts_bytes(a) + a_rest =~= text_bytes(a.first()) + (texts_bytes(a.drop_first())
            + a_rest));
        assert(texts_bytes(b) + b_rest =~= text_bytes(b.first()) + (texts_bytes(b.drop_first())
            + b_rest));
        lemma_text_unambiguous(
            a.first(),
            texts_bytes(a.drop_first()) + a_rest,
            b.first(),
            texts_bytes(b.drop_first()) + b_rest,
        );
        lemma_texts_unambiguous(a.drop_first(), a_rest, b.drop_first(), b_rest);
        assert(a =~= seq![a.first()] + a.drop_first());
        assert(b =~= seq![b.first()] + b.drop_first());
    }
}

/// Entries fit exactly if each of them does.
pub proof fn lemma_entries_fit(entries: ConfigEntries)
    ensures
        entries_fit(entries) <==> forall|i: int|
            0 <= i < entries.len() ==> text_fits((#[trigger] entries[i]).0) && value_fits(entries[i].1),
    decreases entries.len(),
{
    if entries.len() > 0 {
        let rest = entries.drop_first();
        lemma_entries_fit(rest);
        if entries_fit(entries) {
            assert forall|i: int| 0 <= i < entries.len() implies text_fits((#[trigger] entries[i]).0)
                && value_fits(entries[i].1) by {
                if i > 0 {
                    assert(entries[i] == rest[i - 1]);
                }
            }
        }
        if forall|i: int|
            0 <= i < entries.len() ==> text_fits((#[trigger] entries[i]).0) && value_fits(entries[i].1) {
            assert(entries.first() == entries[0]);
            assert forall|i: int| 0 <= i < rest.len() implies text_fits((#[trigger] rest[i]).0)
                && value_fits(rest[i].1) by {
                assert(rest[i] == entries[i + 1]);
            }
        }
    }
}

/// Entries that fit still fit when they are sorted.
pub proof fn lemma_sorted_entries_fit(entries: ConfigEntries)
    requires
        keys_distinct(entries),
        entries_fit(entries),
    ensures
        entries_fit(sort_entries(entries)),
{
    let sorted = sort_entries(entries);
    lemma_sort_entries(entries);
    lemma_entries_fit(entries);
    lemma_entries_fit(sorted);
    assert forall|i: int| 0 <= i < sorted.len() implies text_fits((#[trigger] sorted[i]).0)
        && value_fits(sorted[i].1) by {
        assert(sorted.contains(sorted[i]));
        assert(entries.contains(sorted[i]));
        let k = choose|k: int| 0 <= k < entries.len() && entries[k] == sorted[i];
        assert(text_fits(entries[k].0) && value_fits(entries[k].1));
    }
}

/// An association list all of whose lengths can be written.
pub open spec fn associations_fit(associations: Option<Seq<Seq<char>>>) -> bool {
    match associations {
        None => true,
        Some(patterns) => fits(patterns.len()) && texts_fit(patterns),
    }
}

/// An association list is read back from its bytes.
pub proof fn lemma_associations_unambiguous(
    a: Option<Seq<Seq<char>>>,
    a_rest: Seq<u8>,
    b: Option<Seq<Seq<char>>>,
    b_rest: Seq<u8>,
)
    requires
        associations_fit(a),
        associations_fit(b),
        associations_bytes(a) + a_rest == associations_bytes(b) + b_rest,
    ensures
        a == b,
        a_rest == b_rest,
{
    let a_mark: u8 = if a is Some {
        1
    } else {
        0
    };
    let b_mark: u8 = if b is Some {
        1
    } else {
        0
    };
    let a_content = match a {
        None => Seq::<u8>::empty(),
        Some(patterns) => len_bytes(patterns.len()) + (texts_bytes(patterns) + a_rest),
    };
    let b_content = match b {
        None => Seq::<u8>::empty(),
        Some(patterns) => len_bytes(patterns.len()) + (texts_bytes(patterns) + b_rest),
    };
    let a_tail = if a is Some {
        a_content
    } else {
        a_rest
    };
    let b_tail = if b is Some {
        b_content
    } else {
        b_rest
    };
    assert(associations_bytes(a) + a_rest =~= seq![a_mark] + a_tail);
    assert(associations_bytes(b) + b_rest =~= seq![b_mark] + b_tail);
    assert((seq![a_mark] + a_tail)[0] == a_mark);
    assert((seq![b_mark] + b_tail)[0] == b_mark);
    lemma_same_front(seq![a_mark], a_tail, seq![b_mark], b_tail);
    match (a, b) {
        (Some(a_patterns), Some(b_patterns)) => {
            lemma_len_unambiguous(
                a_patterns.len(),
                texts_bytes(a_patterns) + a_rest,
                b_patterns.len(),
                texts_bytes(b_patterns) + b_rest,
            );
            lemma_texts_unambiguous(a_patterns, a_rest, b_patterns, b_rest);
        },
        _ => {},
    }
}

/// A setting is read back from its bytes.
pub proof fn lemma_setting_unambiguous(a: Option<u64>, a_rest: Seq<u8>, b: Option<u64>, b_rest: Seq<u8>)
    requires
        setting_bytes(a) + a_rest == setting_bytes(b) + b_rest,
    ensures
        a == b,
        a_rest == b_rest,
{
    let a_mark: u8 = if a is Some {
        1
    } else {
        0
    };
    let b_mark: u8 = if b is Some {
        1
    } else {
        0
    };
    let a_tail = match a {
        None => a_rest,
        Some(number) => u64_bytes(number) + a_rest,
    };
    let b_tail = match b {
        None => b_rest,
        Some(number) => u64_bytes(number) + b_rest,
    };
    assert(setting_bytes(a) + a_rest =~= seq![a_mark] + a_tail);
    assert(setting_bytes(b) + b_rest =~= seq![b_mark] + b_tail);
    assert((seq![a_mark] + a_tail)[0] == a_mark);
    assert((seq![b_mark] + b_tail)[0] == b_mark);
    lemma_same_front(seq![a_mark], a_tail, seq![b_mark], b_tail);
    match (a, b) {
        (Some(a_number), Some(b_number)) => {
            lemma_u64_unambiguous(a_number, a_rest, b_number, b_rest);
        },
        _ => {},
    }
}

/// Bytes put together in either grouping are the same bytes.
proof fn lemma_regroup(x: Seq<u8>, y: Seq<u8>, z: Seq<u8>)
    ensures
        (x + y) + z == x + (y + z),
{
    assert((x + y) + z =~= x + (y + z));
}

/// The global configuration with what follows it, setting by setting.
proof fn lemma_global_split(global: GlobalConfiguration, rest: Seq<u8>)
    ensures
        global_bytes(global) + rest == setting_bytes(line_width_setting(global)) + (setting_bytes(
            use_tabs_setting(global),
        ) + (setting_bytes(indent_width_setting(global)) + (setting_bytes(
            new_line_kind_setting(global),
        ) + rest))),
{
    let width = setting_bytes(line_width_setting(global));
    let tabs = setting_bytes(use_tabs_setting(global));
    let indent = setting_bytes(indent_width_setting(global));
    let kind = setting_bytes(new_line_kind_setting(global));
    assert(global_bytes(global) == width + tabs + indent + kind);
    lemma_regroup(width + tabs + indent, kind, rest);
    lemma_regroup(width + tabs, indent, kind + rest);
    lemma_regroup(width, tabs, indent + (kind + rest));
}

/// The settings of a global configuration say what it is.
proof fn lemma_global_by_settings(a: GlobalConfiguration, b: GlobalConfiguration)
    requires
        line_width_setting(a) == line_width_setting(b),
        use_tabs_setting(a) == use_tabs_setting(b),
        indent_width_setting(a) == indent_width_setting(b),
        new_line_kind_setting(a) == new_line_kind_setting(b),
    ensures
        a == b,
{
    assert(a.line_width == b.line_width);
    assert(a.use_tabs == b.use_tabs);
    assert(a.indent_width == b.indent_width);
    assert(a.new_line_kind == b.new_line_kind);
}

/// The global configuration is read back from its bytes.
pub proof fn lemma_global_unambiguous(
    a: GlobalConfiguration,
    a_rest: Seq<u8>,
    b: GlobalConfiguration,
    b_rest: Seq<u8>,
)
    requires
        global_bytes(a) + a_rest == global_bytes(b) + b_rest,
    ensures
        a == b,
        a_rest == b_rest,
{
    let a4 = setting_bytes(new_line_kind_setting(a)) + a_rest;
    let b4 = setting_bytes(new_line_kind_setting(b)) + b_rest;
    let a3 = setting_bytes(indent_width_setting(a)) + a4;
    let b3 = setting_bytes(indent_width_setting(b)) + b4;
    let a2 = setting_bytes(use_tabs_setting(a)) + a3;
    let b2 = setting_bytes(use_tabs_setting(b)) + b3;
    lemma_global_split(a, a_rest);
    lemma_global_split(b, b_rest);
    lemma_setting_unambiguous(line_width_setting(a), a2, line_width_setting(b), b2);
    lemma_setting_unambiguous(use_tabs_setting(a), a3, use_tabs_setting(b), b3);
    lemma_setting_unambiguous(indent_width_setting(a), a4, indent_width_setting(b), b4);
    lemma_setting_unambiguous(new_line_kind_setting(a), a_rest, new_line_kind_setting(b), b_rest);
    lemma_global_by_settings(a, b);
}

/// A raw configuration is read back from its bytes, up to the order in
/// which its keys were set.
pub proof fn lemma_raw_unambiguous(a: ConfigEntries, a_rest: Seq<u8>, b: ConfigEntries, b_rest: Seq<u8>)
    requires
        keys_distinct(a),
        keys_distinct(b),
        fits(a.len()),
        fits(b.len()),
        entries_fit(a),
        entries_fit(b),
        raw_bytes(a) + a_rest == raw_bytes(b) + b_rest,
    ensures
        sort_entries(a) == sort_entries(b),
        same_entries(a, b),
        a_rest == b_rest,
{
    lemma_sort_entries(a);
    lemma_sort_entries(b);
    lemma_sorted_entries_fit(a);
    lemma_sorted_entries_fit(b);
    assert(raw_bytes(a) + a_rest =~= len_bytes(a.len()) + (entries_bytes(sort_entries(a)) + a_rest));
    assert(raw_bytes(b) + b_rest =~= len_bytes(b.len()) + (entries_bytes(sort_entries(b)) + b_rest));
    lemma_len_unambiguous(
        a.len(),
        entries_bytes(sort_entries(a)) + a_rest,
        b.len(),
        entries_bytes(sort_entries(b)) + b_rest,
    );
    lemma_entries_unambiguous(sort_entries(a), a_rest, sort_entries(b), b_rest);
}

/// A plugin all of whose lengths can be written, and whose raw configuration
/// has no key twice. Every plugin in memory whose configuration was built
/// key by key is so.
pub open spec fn plugin_fits(plugin: PluginWithConfig) -> bool {
    &&& text_fits(plugin.plugin.info.name@)
    &&& text_fits(plugin.plugin.info.version@)
    &&& keys_distinct(plugin.format_config.raw@)
    &&& fits(plugin.format_config.raw@.len())
    &&& entries_fit(plugin.format_config.raw@)
    &&& associations_fit(associations_view(plugin.associations))
}

/// Two plugins format alike as far as a fingerprint can tell: they have one
/// name and version, raw configurations of the same entries, the same
/// associations and the same global configuration.
pub open spec fn same_settings(a: PluginWithConfig, b: PluginWithConfig) -> bool {
    &&& a.plugin.info.name@ == b.plugin.info.name@
    &&& a.plugin.info.version@ == b.plugin.info.version@
    &&& same_entries(a.format_config.raw@, b.format_config.raw@)
    &&& associations_view(a.associations) == associations_view(b.associations)
    &&& a.format_config.global == b.format_config.global
}

/// The bytes of a plugin with what follows them, part by part.
proof fn lemma_plugin_split(
    name: Seq<char>,
    version: Seq<char>,
    raw: ConfigEntries,
    associations: Option<Seq<Seq<char>>>,
    global: GlobalConfiguration,
    rest: Seq<u8>,
)
    ensures
        plugin_bytes(name, version, raw, associations, global) + rest == text_bytes(name) + (
        text_bytes(version) + (raw_bytes(raw) + (associations_bytes(associations) + (global_bytes(
            global,
        ) + rest)))),
{
    let name_part = text_bytes(name);
    let version_part = text_bytes(version);
    let raw_part = raw_bytes(raw);
    let associations_part = associations_bytes(associations);
    let global_part = global_bytes(global);
    assert(plugin_bytes(name, version, raw, associations, global) == name_part + version_part + raw_part + associations_part + global_part);
    lemma_regroup(name_part + version_part + raw_part + associations_part, global_part, rest);
    lemma_regroup(name_part + version_part + raw_part, associations_part, global_part + rest);
    lemma_regroup(name_part + version_part, raw_part, associations_part + (global_part + rest));
    lemma_regroup(name_part, version_part, raw_part + (associations_part + (global_part + rest)));
}

/// The parts of a plugin are read back from its bytes.
proof fn lemma_plugin_bytes_unambiguous(
    a_name: Seq<char>,
    a_version: Seq<char>,
    a_raw: ConfigEntries,
    a_associations: Option<Seq<Seq<char>>>,
    a_global: GlobalConfiguration,
    a_rest: Seq<u8>,
    b_name: Seq<char>,
    b_version: Seq<char>,
    b_raw: ConfigEntries,
    b_associations: Option<Seq<Seq<char>>>,
    b_global: GlobalConfiguration,
    b_rest: Seq<u8>,
)
    requires
        text_fits(a_name),
        text_fits(b_name),
        text_fits(a_version),
        text_fits(b_version),
        keys_distinct(a_raw),
        keys_distinct(b_raw),
        fits(a_raw.len()),
        fits(b_raw.len()),
        entries_fit(a_raw),
        entries_fit(b_raw),
        associations_fit(a_associations),
        associations_fit(b_associations),
        plugin_bytes(a_name, a_version, a_raw, a_associations, a_global) + a_rest == plugin_bytes(
            b_name,
            b_version,
            b_raw,
            b_associations,
            b_global,
        ) + b_rest,
    ensures
        a_name == b_name,
        a_version == b_version,
        same_entries(a_raw, b_raw),
        a_associations == b_associations,
        a_global == b_global,
        a_rest == b_rest,
{
    let a4 = global_bytes(a_global) + a_rest;
    let b4 = global_bytes(b_global) + b_rest;
    let a3 = associations_bytes(a_associations) + a4;
    let b3 = associations_bytes(b_associations) + b4;
    let a2 = raw_bytes(a_raw) + a3;
    let b2 = raw_bytes(b_raw) + b3;
    let a1 = text_bytes(a_version) + a2;
    let b1 = text_bytes(b_version) + b2;
    lemma_plugin_split(a_name, a_version, a_raw, a_associations, a_global, a_rest);
    lemma_plugin_split(b_name, b_version, b_raw, b_associations, b_global, b_rest);
    lemma_text_unambiguous(a_name, a1, b_name, b1);
    lemma_text_unambiguous(a_version, a2, b_version, b2);
    lemma_raw_unambiguous(a_raw, a3, b_raw, b3);
    lemma_associations_unambiguous(a_associations, a4, b_associations, b4);
    lemma_global_unambiguous(a_global, a_rest, b_global, b_rest);
}

/// A plugin's settings are read back from the bytes that it adds to a
/// fingerprint.
pub proof fn lemma_plugin_unambiguous(a: PluginWithConfig, a_rest: Seq<u8>, b: PluginWithConfig, b_rest: Seq<u8>)
    requires
        plugin_fits(a),
        plugin_fits(b),
        a.fingerprint_bytes() + a_rest == b.fingerprint_bytes() + b_rest,
    ensures
        same_settings(a, b),
        a_rest == b_rest,
{
    lemma_plugin_bytes_unambiguous(
        a.plugin.info.name@,
        a.plugin.info.version@,
        a.format_config.raw@,
        associations_view(a.associations),
        a.format_config.global,
        a_rest,
        b.plugin.info.name@,
        b.plugin.info.version@,
        b.format_config.raw@,
        associations_view(b.associations),
        b.format_config.global,
        b_rest,
    );
}

/// A fingerprint follows the configuration: plugins that add the same bytes
/// have the same settings. So a change of a raw configuration value, of the
/// global configuration or of an association list changes the bytes that go
/// into the fingerprint.
pub proof fn lemma_fingerprint_tells_settings_apart(a: PluginWithConfig, b: PluginWithConfig)
    requires
        plugin_fits(a),
        plugin_fits(b),
        a.fingerprint_bytes() == b.fingerprint_bytes(),
    ensures
        same_settings(a, b),
{
    lemma_plugin_unambiguous(a, Seq::empty(), b, Seq::empty());
}

/// The bytes of a scope begin with those of its first plugin.
proof fn lemma_scope_bytes_from_front(plugins: Seq<PluginWithConfig>)
    requires
        plugins.len() > 0,
    ensures
        scope_bytes(plugins) == plugins.first().fingerprint_bytes() + scope_bytes(plugins.drop_first()),
    decreases plugins.len(),
{
    if plugins.len() == 1 {
        assert(plugins.drop_last() =~= Seq::<PluginWithConfig>::empty());
        assert(plugins.drop_first() =~= Seq::<PluginWithConfig>::empty());
        assert(scope_bytes(Seq::<PluginWithConfig>::empty()) =~= Seq::<u8>::empty());
        assert(scope_bytes(plugins) =~= plugins.first().fingerprint_bytes() + scope_bytes(
            plugins.drop_first(),
        ));
    } else {
        lemma_scope_bytes_from_front(plugins.drop_last());
        assert(plugins.drop_last().drop_first() =~= plugins.drop_first().drop_last());
        assert(plugins.drop_last().first() == plugins.first());
        assert(plugins.drop_first().last() == plugins.last());
        assert(scope_bytes(plugins) =~= plugins.first().fingerprint_bytes() + scope_bytes(
            plugins.drop_first(),
        ));
    }
}

/// A plugin adds at least the length of its name.
proof fn lemma_fingerprint_not_empty(plugin: PluginWithConfig)
    ensures
        plugin.fingerprint_bytes().len() >= 8,
{
    lemma_auto_spec_u64_to_from_le_bytes();
    assert(len_bytes(encode_utf8(plugin.plugin.info.name@).len()).len() == 8);
}

/// The plugins behind the first all fit where all plugins do.
proof fn lemma_rest_fits(plugins: Seq<PluginWithConfig>)
    requires
        plugins.len() > 0,
        forall|i: int| 0 <= i < plugins.len() ==> plugin_fits(#[trigger] plugins[i]),
    ensures
        plugin_fits(plugins.first()),
        forall|i: int| 0 <= i < plugins.drop_first().len() ==> plugin_fits(
            #[trigger] plugins.drop_first()[i],
        ),
{
    assert(plugin_fits(plugins[0]));
    assert forall|i: int| 0 <= i < plugins.drop_first().len() implies plugin_fits(
        #[trigger] plugins.drop_first()[i],
    ) by {
        assert(plugins.drop_first()[i] == plugins[i + 1]);
    }
}

/// The fingerprint of a scope follows its plugins: scopes that put the same
/// bytes into their fingerprints have as many plugins, with the same
/// settings place by place.
pub proof fn lemma_scope_bytes_tell_scopes_apart(a: Seq<PluginWithConfig>, b: Seq<PluginWithConfig>)
    requires
        forall|i: int| 0 <= i < a.len() ==> plugin_fits(#[trigger] a[i]),
        forall|i: int| 0 <= i < b.len() ==> plugin_fits(#[trigger] b[i]),
        scope_bytes(a) == scope_bytes(b),
    ensures
        a.len() == b.len(),
        forall|i: int| 0 <= i < a.len() ==> same_settings(#[trigger] a[i], b[i]),
    decreases a.len(),
{
    if a.len() == 0 {
        if b.len() > 0 {
            lemma_scope_bytes_from_front(b);
            lemma_fingerprint_not_empty(b.first());
        }
    } else if b.len() == 0 {
        lemma_scope_bytes_from_front(a);
        lemma_fingerprint_not_empty(a.first());
    } else {
        lemma_scope_bytes_from_front(a);
        lemma_scope_bytes_from_front(b);
        lemma_rest_fits(a);
        lemma_rest_fits(b);
        lemma_plugin_unambiguous(
            a.first(),
            scope_bytes(a.drop_first()),
            b.first(),
            scope_bytes(b.drop_first()),
        );
        lemma_scope_bytes_tell_scopes_apart(a.drop_first(), b.drop_first());
        assert forall|i: int| 0 <= i < a.len() implies same_settings(#[trigger] a[i], b[i]) by {
            if i > 0 {
                assert(a[i] == a.drop_first()[i - 1]);
                assert(b[i] == b.drop_first()[i - 1]);
            }
        }
    }
}

} // verus!
