//! A plugin bound to its configuration, and the admission that shows its
//! configuration diagnostics once.

use crate::config::{lemma_entries_view, FileMatchingInfo, FormatConfig, PluginInfo, PluginReference};
use crate::encoding::{
    associations_bytes, entries_bytes, entry_bytes, global_bytes, lemma_entries_bytes_push,
    lemma_texts_bytes_push, len_bytes, plugin_bytes, raw_bytes, text_bytes, texts_bytes, value_bytes,
    write_global, write_len, write_text, write_value,
};
use crate::hasher::{absorb, lemma_absorb_concat, IncrementalHasher};
use crate::sharing::{share_arc, share_rc};
use crate::sorted::{picked, sort_entries, sorted_order};
use std::rc::Rc;
use std::sync::Arc;
use vstd::prelude::*;

verus! {

/// What is known of a plugin's configuration diagnostics.
#[derive(Clone, Copy, Debug, PartialEq, Eq, Structural)]
pub enum DiagnosticState {
    /// The plugin was not asked yet.
    Unchecked,
    /// The plugin was asked and had this many.
    Checked(usize),
}

/// Where a plugin's diagnostic count is kept. It is set at most once: what
/// was recorded first stays.
#[derive(Debug, PartialEq, Eq)]
pub struct DiagnosticSlot {
    state: DiagnosticState,
}

/// What a slot holds after `count` is recorded in one that held `state`.
pub open spec fn recorded(state: DiagnosticState, count: usize) -> DiagnosticState {
    match state {
        DiagnosticState::Unchecked => DiagnosticState::Checked(count),
        DiagnosticState::Checked(_) => state,
    }
}

impl View for DiagnosticSlot {
    type V = DiagnosticState;

    closed spec fn view(&self) -> DiagnosticState {
        self.state
    }
}

impl DiagnosticSlot {
    /// The slot of a plugin that was not asked yet.
    pub closed spec fn unchecked() -> DiagnosticSlot {
        DiagnosticSlot { state: DiagnosticState::Unchecked }
    }

    /// The slot of a plugin that was not asked yet holds no count.
    pub proof fn lemma_unchecked()
        ensures
            Self::unchecked()@ == DiagnosticState::Unchecked,
    {
    }

    pub fn new() -> (slot: Self)
        ensures
            slot == Self::unchecked(),
            slot@ == DiagnosticState::Unchecked,
    {
        DiagnosticSlot { state: DiagnosticState::Unchecked }
    }

    pub fn get(&self) -> (state: DiagnosticState)
        ensures
            state == self@,
    {
        self.state
    }

    /// Records `count` unless a count is there already. Returns whether this
    /// was the first.
    pub fn record(&mut self, count: usize) -> (first: bool)
        ensures
            final(self)@ == recorded(old(self)@, count),
            first == (old(self)@ is Unchecked),
    {
        match self.state {
            DiagnosticState::Unchecked => {
                self.state = DiagnosticState::Checked(count);
                true
            },
            DiagnosticState::Checked(_) => false,
        }
    }
}

/// What a plugin said of its configuration: the number of diagnostics and
/// the text that shows them.
#[derive(Debug, PartialEq, Eq)]
pub struct DiagnosticsReport {
    pub count: usize,
    pub text: String,
}

/// A plugin with the configuration that it was resolved with.
#[derive(Debug, PartialEq, Eq)]
pub struct PluginWithConfig {
    pub plugin: Rc<PluginReference>,
    /// The file patterns of the configuration, where it has any: they stand in
    /// place of the plugin's own.
    pub associations: Option<Vec<String>>,
    pub format_config: Arc<FormatConfig>,
    pub file_matching: FileMatchingInfo,
    pub config_diagnostic_count: DiagnosticSlot,
}

/// A started plugin with the configuration that it formats with.
#[derive(Debug, PartialEq, Eq)]
pub struct InitializedPluginWithConfig<I> {
    pub plugin: Rc<PluginReference>,
    pub format_config: Arc<FormatConfig>,
    pub instance: I,
}

/// How the admission of a plugin ended.
#[derive(Debug, PartialEq, Eq)]
pub enum GetPluginResult<I> {
    /// Its configuration has this many diagnostics: it does not format.
    HadDiagnostics(usize),
    Success(InitializedPluginWithConfig<I>),
}

/// What happened in the admission of a plugin.
#[derive(Debug, PartialEq, Eq)]
pub enum AdmissionEvent<I> {
    /// A caller asks for the plugin.
    Requested,
    /// The plugin was started, or could not be.
    Initialized(Result<I, String>),
    /// The started plugin was asked for its configuration diagnostics, and
    /// reported them or failed.
    Checked(InitializedPluginWithConfig<I>, Result<DiagnosticsReport, String>),
}

/// What is to be done next in the admission of a plugin.
#[derive(Debug, PartialEq, Eq)]
pub enum AdmissionAction<I> {
    /// Start the plugin.
    Initialize,
    /// Ask the started plugin for its configuration diagnostics.
    OutputConfigDiagnostics(InitializedPluginWithConfig<I>),
    /// The caller has its answer; `log` is to be written to the error stream.
    Finished { result: Result<GetPluginResult<I>, String>, log: Option<String> },
}

/// The patterns of an association list, as texts.
pub open spec fn associations_view(associations: Option<Vec<String>>) -> Option<Seq<Seq<char>>> {
    match associations {
        None => None,
        Some(patterns) => Some(patterns@.map_values(|pattern: String| pattern@)),
    }
}

/// What is known of the diagnostics after `event`: once a count is there it stays.
pub open spec fn admission_state<I>(state: DiagnosticState, event: AdmissionEvent<I>) -> DiagnosticState {
    match event {
        AdmissionEvent::Checked(_, Ok(report)) => recorded(state, report.count),
        _ => state,
    }
}

impl PluginWithConfig {
    /// What is known of the plugin's configuration diagnostics.
    pub open spec fn diagnostics(&self) -> DiagnosticState {
        self.config_diagnostic_count@
    }

    /// `other` is this plugin with this configuration, whatever is known of
    /// its diagnostics.
    pub open spec fn same_binding(&self, other: &PluginWithConfig) -> bool {
        &&& self.plugin == other.plugin
        &&& self.associations == other.associations
        &&& self.format_config == other.format_config
        &&& self.file_matching == other.file_matching
    }

    /// The bytes that this plugin adds to a fingerprint.
    pub open spec fn fingerprint_bytes(&self) -> Seq<u8> {
        plugin_bytes(
            self.plugin.info.name@,
            self.plugin.info.version@,
            self.format_config.raw@,
            associations_view(self.associations),
            self.format_config.global,
        )
    }

    /// A plugin with its configuration, not asked for its diagnostics yet.
    pub open spec fn fresh(
        plugin: Rc<PluginReference>,
        associations: Option<Vec<String>>,
        format_config: Arc<FormatConfig>,
        file_matching: FileMatchingInfo,
    ) -> PluginWithConfig {
        PluginWithConfig {
            plugin,
            associations,
            format_config,
            file_matching,
            config_diagnostic_count: DiagnosticSlot::unchecked(),
        }
    }

    /// The started plugin `instance` with this configuration.
    pub open spec fn bind<I>(&self, instance: I) -> InitializedPluginWithConfig<I> {
        InitializedPluginWithConfig {
            plugin: self.plugin,
            format_config: self.format_config,
            instance,
        }
    }

    /// What is answered to `event` when `state` is known of the
    /// diagnostics.
    pub open spec fn admission_action<I>(&self, state: DiagnosticState, event: AdmissionEvent<I>) -> AdmissionAction<
        I,
    > {
        match event {
            AdmissionEvent::Requested => match state {
                DiagnosticState::Checked(count) if count > 0 => AdmissionAction::Finished {
                    result: Ok(GetPluginResult::HadDiagnostics(count)),
                    log: None,
                },
                _ => AdmissionAction::Initialize,
            },
            AdmissionEvent::Initialized(Err(error)) => AdmissionAction::Finished {
                result: Err(error),
                log: None,
            },
            AdmissionEvent::Initialized(Ok(instance)) => match state {
                DiagnosticState::Unchecked => AdmissionAction::OutputConfigDiagnostics(
                    self.bind(instance),
                ),
                DiagnosticState::Checked(count) => if count > 0 {
                    AdmissionAction::Finished {
                        result: Ok(GetPluginResult::HadDiagnostics(count)),
                        log: None,
                    }
                } else {
                    AdmissionAction::Finished {
                        result: Ok(GetPluginResult::Success(self.bind(instance))),
                        log: None,
                    }
                },
            },
            AdmissionEvent::Checked(_, Err(error)) => AdmissionAction::Finished {
                result: Err(error),
                log: None,
            },
            AdmissionEvent::Checked(initialized, Ok(report)) => match state {
                DiagnosticState::Unchecked => if report.count > 0 {
                    AdmissionAction::Finished {
                        result: Ok(GetPluginResult::HadDiagnostics(report.count)),
                        log: Some(report.text),
                    }
                } else {
                    AdmissionAction::Finished {
                        result: Ok(GetPluginResult::Success(initialized)),
                        log: None,
                    }
                },
                DiagnosticState::Checked(count) => if count > 0 {
                    AdmissionAction::Finished {
                        result: Ok(GetPluginResult::HadDiagnostics(count)),
                        log: None,
                    }
                } else {
                    AdmissionAction::Finished {
                        result: Ok(GetPluginResult::Success(initialized)),
                        log: None,
                    }
                },
            },
        }
    }

    pub fn new(
        plugin: Rc<PluginReference>,
        associations: Option<Vec<String>>,
        format_config: Arc<FormatConfig>,
        file_matching: FileMatchingInfo,
    ) -> (bound: Self)
        ensures
            bound == Self::fresh(plugin, associations, format_config, file_matching),
            bound.diagnostics() == DiagnosticState::Unchecked,
    {
        PluginWithConfig {
            plugin,
            associations,
            format_config,
            file_matching,
            config_diagnostic_count: DiagnosticSlot::new(),
        }
    }

    pub fn name(&self) -> (name: &str)
        ensures
            name@ == self.plugin.info.name@,
    {
        self.plugin.info.name.as_str()
    }

    pub fn info(&self) -> (info: &PluginInfo)
        ensures
            *info == self.plugin.info,
    {
        &self.plugin.info
    }

    /// Feeds all of this plugin that bears on formatting into `hasher`.
    pub fn incremental_hash(&self, hasher: &mut IncrementalHasher)
        ensures
            final(hasher).digest() == absorb(old(hasher).digest(), self.fingerprint_bytes()),
    {
        let ghost start = hasher.digest();
        let ghost name = text_bytes(self.plugin.info.name@);
        let ghost version = text_bytes(self.plugin.info.version@);
        write_text(hasher, self.plugin.info.name.as_str());
        write_text(hasher, self.plugin.info.version.as_str());

        // the raw configuration, its keys ascending
        let raw = &self.format_config.raw;
        let order = sorted_order(raw);
        let ghost sorted = sort_entries(raw@);
        let ghost front = name + version + len_bytes(raw@.len());
        proof {
            lemma_entries_view(raw.entries@);
        }
        write_len(hasher, raw.entries.len());
        proof {
            lemma_absorb_concat(start, name, version);
            lemma_absorb_concat(start, name + version, len_bytes(raw@.len()));
            assert(front + entries_bytes(sorted.take(0)) =~= front);
        }
        let mut i: usize = 0;
        while i < order.len()
            invariant
                i <= order@.len(),
                order@.len() == raw@.len(),
                raw@.len() == raw.entries@.len(),
                forall|j: int| 0 <= j < order@.len() ==> (#[trigger] order@[j]) < raw@.len(),
                forall|j: int|
                    0 <= j < raw.entries@.len() ==> (#[trigger] raw@[j]) == (
                        raw.entries@[j].0@,
                        raw.entries@[j].1@,
                    ),
                sorted == picked(raw@, order@),
                hasher.digest() == absorb(start, front + entries_bytes(sorted.take(i as int))),
            decreases order@.len() - i,
        {
            let place = order[i];
            let ghost done = sorted.take(i as int);
            let ghost entry = sorted[i as int];
            let ghost middle = hasher.digest();
            write_text(hasher, raw.entries[place].0.as_str());
            write_value(hasher, &raw.entries[place].1);
            proof {
                assert(entry == raw@[place as int]);
                lemma_entries_bytes_push(done, entry);
                assert(sorted.take(i + 1) =~= done.push(entry));
                lemma_absorb_concat(middle, text_bytes(entry.0), value_bytes(entry.1));
                lemma_absorb_concat(start, front + entries_bytes(done), entry_bytes(entry));
                assert(front + entries_bytes(done) + entry_bytes(entry) =~= front + (entries_bytes(
                    done,
                ) + entry_bytes(entry)));
            }
            i += 1;
        }
        let ghost raw_part = name + version + raw_bytes(raw@);
        proof {
            assert(sorted.take(i as int) =~= sorted);
            assert(front + entries_bytes(sorted) =~= raw_part);
        }

        // the associations
        let ghost views = associations_view(self.associations);
        match &self.associations {
            None => {
                hasher.write_u8(0);
                proof {
                    lemma_absorb_concat(start, raw_part, seq![0u8]);
                }
            },
            Some(patterns) => {
                let ghost texts = patterns@.map_values(|pattern: String| pattern@);
                let ghost head = raw_part + seq![1u8] + len_bytes(texts.len());
                hasher.write_u8(1);
                write_len(hasher, patterns.len());
                proof {
                    lemma_absorb_concat(start, raw_part, seq![1u8]);
                    lemma_absorb_concat(start, raw_part + seq![1u8], len_bytes(texts.len()));
                    assert(head + texts_bytes(texts.take(0)) =~= head);
                }
                let mut k: usize = 0;
                while k < patterns.len()
                    invariant
                        k <= patterns@.len(),
                        texts == patterns@.map_values(|pattern: String| pattern@),
                        hasher.digest() == absorb(start, head + texts_bytes(texts.take(k as int))),
                    decreases patterns@.len() - k,
                {
                    let ghost done = texts.take(k as int);
                    write_text(hasher, patterns[k].as_str());
                    proof {
                        lemma_texts_bytes_push(done, texts[k as int]);
                        assert(texts.take(k + 1) =~= done.push(texts[k as int]));
                        lemma_absorb_concat(start, head + texts_bytes(done), text_bytes(texts[k as int]));
                        assert(head + texts_bytes(done) + text_bytes(texts[k as int]) =~= head + (
                        texts_bytes(done) + text_bytes(texts[k as int])));
                    }
                    k += 1;
                }
                proof {
                    assert(texts.take(k as int) =~= texts);
                    assert(head + texts_bytes(texts) =~= raw_part + associations_bytes(views));
                }
            },
        }
        let ghost before_global = raw_part + associations_bytes(views);
        write_global(hasher, &self.format_config.global);
        proof {
            lemma_absorb_concat(start, before_global, global_bytes(self.format_config.global));
        }
    }

    /// Binds a plugin that was started to this configuration, or hands on why
    /// it could not be started.
    pub fn initialize<I>(&self, started: Result<I, String>) -> (bound: Result<
        InitializedPluginWithConfig<I>,
        String,
    >)
        ensures
            bound == match started {
                Ok(instance) => Ok::<InitializedPluginWithConfig<I>, String>(self.bind(instance)),
                Err(error) => Err(error),
            },
    {
        match started {
            Ok(instance) => Ok(
                InitializedPluginWithConfig {
                    plugin: share_rc(&self.plugin),
                    format_config: share_arc(&self.format_config),
                    instance,
                },
            ),
            Err(error) => Err(error),
        }
    }

    /// The admission of a plugin. It lets a caller have the started plugin
    /// only after the plugin's configuration diagnostics were asked for once
    /// and there were none; the text of the diagnostics is handed out for the
    /// error stream when they are first seen, and never again.
    pub fn get_or_create_checking_config_diagnostics<I>(&mut self, event: AdmissionEvent<I>) -> (action:
        AdmissionAction<I>)
        ensures
            action == old(self).admission_action(old(self).diagnostics(), event),
            final(self).diagnostics() == admission_state(old(self).diagnostics(), event),
            final(self).same_binding(old(self)),
    {
        match event {
            AdmissionEvent::Requested => match self.config_diagnostic_count.get() {
                DiagnosticState::Checked(count) if count > 0 => AdmissionAction::Finished {
                    result: Ok(GetPluginResult::HadDiagnostics(count)),
                    log: None,
                },
                _ => AdmissionAction::Initialize,
            },
            AdmissionEvent::Initialized(Err(error)) => AdmissionAction::Finished {
                result: Err(error),
                log: None,
            },
            AdmissionEvent::Initialized(Ok(instance)) => match self.config_diagnostic_count.get() {
                DiagnosticState::Unchecked => {
                    let bound = InitializedPluginWithConfig {
                        plugin: share_rc(&self.plugin),
                        format_config: share_arc(&self.format_config),
                        instance,
                    };
                    AdmissionAction::OutputConfigDiagnostics(bound)
                },
                DiagnosticState::Checked(count) => {
                    if count > 0 {
                        AdmissionAction::Finished {
                            result: Ok(GetPluginResult::HadDiagnostics(count)),
                            log: None,
                        }
                    } else {
                        let bound = InitializedPluginWithConfig {
                            plugin: share_rc(&self.plugin),
                            format_config: share_arc(&self.format_config),
                            instance,
                        };
                        AdmissionAction::Finished {
                            result: Ok(GetPluginResult::Success(bound)),
                            log: None,
                        }
                    }
                },
            },
            AdmissionEvent::Checked(_, Err(error)) => AdmissionAction::Finished {
                result: Err(error),
                log: None,
            },
            AdmissionEvent::Checked(initialized, Ok(report)) => match self.config_diagnostic_count.get() {
                DiagnosticState::Unchecked => {
                    self.config_diagnostic_count.record(report.count);
                    if report.count > 0 {
                        AdmissionAction::Finished {
                            result: Ok(GetPluginResult::HadDiagnostics(report.count)),
                            log: Some(report.text),
                        }
                    } else {
                        AdmissionAction::Finished {
                            result: Ok(GetPluginResult::Success(initialized)),
                            log: None,
                        }
                    }
                },
                DiagnosticState::Checked(count) => {
                    if count > 0 {
                        AdmissionAction::Finished {
                            result: Ok(GetPluginResult::HadDiagnostics(count)),
                            log: None,
                        }
                    } else {
                        AdmissionAction::Finished {
                            result: Ok(GetPluginResult::Success(initialized)),
                            log: None,
                        }
                    }
                },
            },
        }
    }
}

/// What is known of the diagnostics after a whole sequence of events.
pub open spec fn admission_state_after<I>(state: DiagnosticState, events: Seq<AdmissionEvent<I>>) -> DiagnosticState
    decreases events.len(),
{
    if events.len() == 0 {
        state
    } else {
        admission_state(admission_state_after(state, events.drop_last()), events.last())
    }
}

/// The answer to the event at `place` of a sequence of events that
/// reach the plugin one after the other.
pub open spec fn admission_action_at<I>(plugin: PluginWithConfig, events: Seq<AdmissionEvent<I>>, place: int) -> AdmissionAction<
    I,
> {
    plugin.admission_action(admission_state_after(plugin.diagnostics(), events.take(place)), events[place])
}

/// Whether an answer hands out text for the error stream.
pub open spec fn shows_diagnostics<I>(action: AdmissionAction<I>) -> bool {
    action matches AdmissionAction::Finished { log: Some(_), .. }
}

/// The count with which an answer turns a caller away, if it does.
pub open spec fn refusal<I>(action: AdmissionAction<I>) -> Option<usize> {
    match action {
        AdmissionAction::Finished { result: Ok(GetPluginResult::HadDiagnostics(count)), .. } => Some(
            count,
        ),
        _ => None,
    }
}

/// How many of the answers to the first `upto` events hand out text for the
/// error stream.
pub open spec fn times_shown<I>(plugin: PluginWithConfig, events: Seq<AdmissionEvent<I>>, upto: int) -> nat
    decreases upto,
{
    if upto <= 0 {
        0
    } else {
        times_shown(plugin, events, upto - 1) + if shows_diagnostics(
            admission_action_at(plugin, events, upto - 1),
        ) {
            1nat
        } else {
            0nat
        }
    }
}

/// What holds of the answers to the first `upto` events, by what is known
/// after them.
proof fn lemma_admission_trace<I>(plugin: PluginWithConfig, events: Seq<AdmissionEvent<I>>, upto: int)
    requires
        plugin.diagnostics() is Unchecked,
        0 <= upto <= events.len(),
    ensures
        match admission_state_after(plugin.diagnostics(), events.take(upto)) {
            DiagnosticState::Checked(count) if count > 0 => {
                &&& times_shown(plugin, events, upto) == 1
                &&& forall|i: int|
                    0 <= i < upto ==> (#[trigger] refusal(admission_action_at(plugin, events, i)) is Some
                        ==> refusal(admission_action_at(plugin, events, i)) == Some(count))
            },
            _ => {
                &&& times_shown(plugin, events, upto) == 0
                &&& forall|i: int|
                    0 <= i < upto ==> #[trigger] refusal(admission_action_at(plugin, events, i)) is None
            },
        },
    decreases upto,
{
    if upto > 0 {
        lemma_admission_trace(plugin, events, upto - 1);
        assert(events.take(upto).drop_last() =~= events.take(upto - 1));
        assert(events.take(upto).last() == events[upto - 1]);
    }
}

/// However many callers ask for a plugin, and in whatever order their
/// events reach it: the text of its configuration diagnostics is handed out
/// at most once, all callers that are turned away are given the same count,
/// and where one is turned away the text was handed out exactly once.
pub proof fn lemma_diagnostics_shown_once<I>(plugin: PluginWithConfig, events: Seq<AdmissionEvent<I>>)
    requires
        plugin.diagnostics() is Unchecked,
    ensures
        times_shown(plugin, events, events.len() as int) <= 1,
        forall|i: int, j: int|
            0 <= i < events.len() && 0 <= j < events.len() && (#[trigger] refusal(
                admission_action_at(plugin, events, i),
            )) is Some && (#[trigger] refusal(admission_action_at(plugin, events, j))) is Some
                ==> refusal(admission_action_at(plugin, events, i)) == refusal(
                admission_action_at(plugin, events, j),
            ),
        forall|i: int|
            0 <= i < events.len() && (#[trigger] refusal(admission_action_at(plugin, events, i))) is Some
                ==> times_shown(plugin, events, events.len() as int) == 1,
{
    lemma_admission_trace(plugin, events, events.len() as int);
}

/// A count that is known stays known: no event changes it.
pub proof fn lemma_diagnostics_never_reset<I>(state: DiagnosticState, events: Seq<AdmissionEvent<I>>)
    requires
        state is Checked,
    ensures
        admission_state_after(state, events) == state,
    decreases events.len(),
{
    if events.len() > 0 {
        lemma_diagnostics_never_reset(state, events.drop_last());
    }
}

} // verus!
