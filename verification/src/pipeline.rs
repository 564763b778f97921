//! Formatting one text with the plugins that are responsible for it, one
//! after the other, each on what the one before made of it.

use crate::config::ConfigKeyMap;
use crate::paths::clone_path;
use crate::plugin::{GetPluginResult, InitializedPluginWithConfig, PluginWithConfig};
use crate::request::{
    clone_range, FormatRange, HostFormatCallback, HostFormatRequest,
    InitializedPluginWithConfigFormatRequest,
};
use crate::scope::{has_plugin, PluginsScope};
use crate::sharing::share_rc;
use crate::text::{decimal, decimal_digits, str_eq};
use std::path::PathBuf;
use std::rc::Rc;
use vstd::prelude::*;
use vstd::string::StringExecFns;

verus! {

/// Why a text was not formatted.
#[derive(Debug, PartialEq, Eq)]
pub enum FormatError {
    /// A plugin's configuration has this many diagnostics.
    ConfigDiagnostics(usize),
    /// A plugin could not be started or asked for its diagnostics, or said
    /// that it is beyond recovery. Nothing more should be tried with the file.
    Critical(String),
    /// A plugin failed on the text.
    Plugin(String),
    /// The pipeline names a plugin that the scope does not have.
    UnknownPlugin(String),
    /// An event reached a run that was not waiting for it, or brought another
    /// plugin than the one that the run had asked for.
    UnexpectedEvent,
}

/// A plugin's word that it could not format a text.
#[derive(Debug, PartialEq, Eq)]
pub struct PluginFailure {
    pub message: String,
    /// Whether the plugin is beyond recovery.
    pub critical: bool,
}

/// What a run waits for.
#[derive(Clone, Copy, Debug, PartialEq, Eq, Structural)]
pub enum FormatPhase {
    /// For the plugin at `position` to be admitted.
    AwaitingPlugin,
    /// For the plugin at `position` to hand back the text.
    AwaitingText,
    /// For nothing: the result was given.
    Done,
}

/// What happened for a run.
#[derive(Debug, PartialEq, Eq)]
pub enum FormatEvent<I> {
    /// The plugin that was asked for was admitted or turned away.
    PluginResolved(Result<GetPluginResult<I>, String>),
    /// The plugin that was given the text answered: nothing where it leaves
    /// the text as it is, else the new text.
    Formatted(Result<Option<String>, PluginFailure>),
}

/// What is to be done next for a run.
#[derive(Debug, PartialEq, Eq)]
pub enum FormatAction<I> {
    /// Have the plugin of this name admitted.
    GetPlugin { plugin_name: String },
    /// Give the text to the plugin.
    FormatText { plugin: InitializedPluginWithConfig<I>, request: InitializedPluginWithConfigFormatRequest },
    /// The run is over: nothing where no plugin changed the text, else the
    /// text as the last plugin left it.
    Finished(Result<Option<String>, FormatError>),
}

/// One text on its way through the plugins that are responsible for it.
#[derive(Debug, PartialEq, Eq)]
pub struct FormatRun {
    pub file_path: PathBuf,
    pub range: FormatRange,
    pub override_config: Rc<ConfigKeyMap>,
    /// The plugins to apply, first to last.
    pub plugin_names: Vec<String>,
    /// How many of them are done with the text.
    pub position: usize,
    /// The text as the plugins so far left it.
    pub file_text: String,
    /// Whether one of them changed it.
    pub had_change: bool,
    pub phase: FormatPhase,
    /// The way back into the scope that the run began in. Every plugin of the
    /// run is given it.
    pub on_host_format: HostFormatCallback,
}

impl FormatError {
    /// The failure in words.
    pub open spec fn message_view(self) -> Seq<char> {
        match self {
            FormatError::ConfigDiagnostics(count) => "Had "@ + decimal_digits(count as nat)
                + " configuration errors."@,
            FormatError::Critical(reason) => reason@,
            FormatError::Plugin(reason) => reason@,
            FormatError::UnknownPlugin(name) => "Expected to find plugin in collection: "@ + name@,
            FormatError::UnexpectedEvent => "The formatting run did not wait for this event."@,
        }
    }

    /// The failure in words.
    pub fn message(&self) -> (text: String)
        ensures
            text@ == self.message_view(),
    {
        match self {
            FormatError::ConfigDiagnostics(count) => {
                let number = decimal(*count);
                "Had ".to_owned().concat(number.as_str()).concat(" configuration errors.")
            },
            FormatError::Critical(reason) => reason.clone(),
            FormatError::Plugin(reason) => reason.clone(),
            FormatError::UnknownPlugin(name) => "Expected to find plugin in collection: ".to_owned().concat(
                name.as_str(),
            ),
            FormatError::UnexpectedEvent => "The formatting run did not wait for this event.".to_owned(),
        }
    }

    /// Whether nothing more should be tried with the file.
    pub fn is_critical(&self) -> (critical: bool)
        ensures
            critical == (*self is Critical),
    {
        match self {
            FormatError::Critical(_) => true,
            _ => false,
        }
    }
}

impl FormatRun {
    /// The run as it waits for a request to be served, in the scope that
    /// `on_host_format` leads back into.
    pub open spec fn begin(
        request: HostFormatRequest,
        plugin_names: Vec<String>,
        on_host_format: HostFormatCallback,
    ) -> FormatRun {
        FormatRun {
            file_path: request.file_path,
            range: request.range,
            override_config: request.override_config,
            plugin_names,
            position: 0,
            file_text: request.file_text,
            had_change: false,
            phase: FormatPhase::AwaitingPlugin,
            on_host_format,
        }
    }

    /// The run ends with `result`.
    pub open spec fn finish<I>(self, result: Result<Option<String>, FormatError>) -> (
        FormatRun,
        FormatAction<I>,
    ) {
        (FormatRun { phase: FormatPhase::Done, ..self }, FormatAction::Finished(result))
    }

    /// The run turns to the plugin at `position`: it asks for it if the scope
    /// has it, and ends where no plugin is left.
    pub open spec fn advance<I>(self, plugins: Seq<PluginWithConfig>) -> (FormatRun, FormatAction<I>) {
        if self.position < self.plugin_names@.len() {
            let name = self.plugin_names@[self.position as int];
            if has_plugin(plugins, name@) {
                (
                    FormatRun { phase: FormatPhase::AwaitingPlugin, ..self },
                    FormatAction::GetPlugin { plugin_name: name },
                )
            } else {
                self.finish(Err(FormatError::UnknownPlugin(name)))
            }
        } else {
            self.finish(
                Ok(
                    if self.had_change {
                        Some(self.file_text)
                    } else {
                        None
                    },
                ),
            )
        }
    }

    /// What the plugin at `position` is asked: the text as it stands, all
    /// else as the request had it, and the way back into the scope that the
    /// run began in.
    pub open spec fn stage_request(self) -> InitializedPluginWithConfigFormatRequest {
        InitializedPluginWithConfigFormatRequest {
            file_path: self.file_path,
            file_text: self.file_text,
            range: self.range,
            override_config: self.override_config,
            on_host_format: self.on_host_format,
        }
    }

    /// The run after `event`, and what is to be done next.
    pub open spec fn step<I>(self, plugins: Seq<PluginWithConfig>, event: FormatEvent<I>) -> (
        FormatRun,
        FormatAction<I>,
    ) {
        if self.position >= self.plugin_names@.len() {
            self.finish(Err(FormatError::UnexpectedEvent))
        } else {
            match (self.phase, event) {
                (
                    FormatPhase::AwaitingPlugin,
                    FormatEvent::PluginResolved(Ok(GetPluginResult::Success(plugin))),
                ) => if plugin.plugin.info.name@ == self.plugin_names@[self.position as int]@ {
                    (
                        FormatRun { phase: FormatPhase::AwaitingText, ..self },
                        FormatAction::FormatText { plugin, request: self.stage_request() },
                    )
                } else {
                    self.finish(Err(FormatError::UnexpectedEvent))
                },
                (
                    FormatPhase::AwaitingPlugin,
                    FormatEvent::PluginResolved(Ok(GetPluginResult::HadDiagnostics(count))),
                ) => self.finish(Err(FormatError::ConfigDiagnostics(count))),
                (FormatPhase::AwaitingPlugin, FormatEvent::PluginResolved(Err(error))) => self.finish(
                    Err(FormatError::Critical(error)),
                ),
                (FormatPhase::AwaitingText, FormatEvent::Formatted(Ok(Some(text)))) => FormatRun {
                    file_text: text,
                    had_change: true,
                    position: (self.position + 1) as usize,
                    ..self
                }.advance(plugins),
                (FormatPhase::AwaitingText, FormatEvent::Formatted(Ok(None))) => FormatRun {
                    position: (self.position + 1) as usize,
                    ..self
                }.advance(plugins),
                (FormatPhase::AwaitingText, FormatEvent::Formatted(Err(failure))) => self.finish(
                    Err(
                        if failure.critical {
                            FormatError::Critical(failure.message)
                        } else {
                            FormatError::Plugin(failure.message)
                        },
                    ),
                ),
                _ => self.finish(Err(FormatError::UnexpectedEvent)),
            }
        }
    }

    /// Turns to the plugin at `position`.
    fn next_plugin<I>(&mut self, scope: &PluginsScope) -> (action: FormatAction<I>)
        ensures
            (*final(self), action) == old(self).advance::<I>(scope@),
    {
        if self.position < self.plugin_names.len() {
            let name = self.plugin_names[self.position].clone();
            match scope.plugin_place(name.as_str()) {
                Some(_) => {
                    self.phase = FormatPhase::AwaitingPlugin;
                    FormatAction::GetPlugin { plugin_name: name }
                },
                None => {
                    self.phase = FormatPhase::Done;
                    FormatAction::Finished(Err(FormatError::UnknownPlugin(name)))
                },
            }
        } else {
            self.phase = FormatPhase::Done;
            let result = if self.had_change {
                Some(self.file_text.clone())
            } else {
                None
            };
            FormatAction::Finished(Ok(result))
        }
    }

    /// Takes the run one step on: `event` is what came of the action that the
    /// run asked for last.
    pub fn handle<I>(&mut self, scope: &PluginsScope, event: FormatEvent<I>) -> (action: FormatAction<I>)
        ensures
            (*final(self), action) == old(self).step(scope@, event),
    {
        if self.position >= self.plugin_names.len() {
            self.phase = FormatPhase::Done;
            return FormatAction::Finished(Err(FormatError::UnexpectedEvent));
        }
        match self.phase {
            FormatPhase::AwaitingPlugin => match event {
                FormatEvent::PluginResolved(Ok(GetPluginResult::Success(plugin))) => {
                    if !str_eq(
                        plugin.plugin.info.name.as_str(),
                        self.plugin_names[self.position].as_str(),
                    ) {
                        self.phase = FormatPhase::Done;
                        return FormatAction::Finished(Err(FormatError::UnexpectedEvent));
                    }
                    let request = InitializedPluginWithConfigFormatRequest {
                        file_path: clone_path(&self.file_path),
                        file_text: self.file_text.clone(),
                        range: clone_range(&self.range),
                        override_config: share_rc(&self.override_config),
                        on_host_format: self.on_host_format.clone(),
                    };
                    self.phase = FormatPhase::AwaitingText;
                    FormatAction::FormatText { plugin, request }
                },
                FormatEvent::PluginResolved(Ok(GetPluginResult::HadDiagnostics(count))) => {
                    self.phase = FormatPhase::Done;
                    FormatAction::Finished(Err(FormatError::ConfigDiagnostics(count)))
                },
                FormatEvent::PluginResolved(Err(error)) => {
                    self.phase = FormatPhase::Done;
                    FormatAction::Finished(Err(FormatError::Critical(error)))
                },
                _ => {
                    self.phase = FormatPhase::Done;
                    FormatAction::Finished(Err(FormatError::UnexpectedEvent))
                },
            },
            FormatPhase::AwaitingText => match event {
                FormatEvent::Formatted(Ok(Some(text))) => {
                    self.file_text = text;
                    self.had_change = true;
                    self.position = self.position + 1;
                    self.next_plugin(scope)
                },
                FormatEvent::Formatted(Ok(None)) => {
                    self.position = self.position + 1;
                    self.next_plugin(scope)
                },
                FormatEvent::Formatted(Err(failure)) => {
                    self.phase = FormatPhase::Done;
                    let error = if failure.critical {
                        FormatError::Critical(failure.message)
                    } else {
                        FormatError::Plugin(failure.message)
                    };
                    FormatAction::Finished(Err(error))
                },
                _ => {
                    self.phase = FormatPhase::Done;
                    FormatAction::Finished(Err(FormatError::UnexpectedEvent))
                },
            },
            FormatPhase::Done => {
                FormatAction::Finished(Err(FormatError::UnexpectedEvent))
            },
        }
    }
}

impl PluginsScope {
    /// Begins to format a text with the plugins called `plugin_names`, first
    /// to last: the run, and what is to be done first.
    pub fn format<I>(&self, request: HostFormatRequest, plugin_names: Vec<String>) -> (started: (
        FormatRun,
        FormatAction<I>,
    ))
        ensures
            started == FormatRun::begin(request, plugin_names, self.host_format_callback()).advance::<
                I,
            >(self@),
    {
        let on_host_format = self.create_host_format_callback();
        let mut run = FormatRun {
            file_path: request.file_path,
            range: request.range,
            override_config: request.override_config,
            plugin_names,
            position: 0,
            file_text: request.file_text,
            had_change: false,
            phase: FormatPhase::AwaitingPlugin,
            on_host_format,
        };
        let action = run.next_plugin(self);
        (run, action)
    }

    /// The way back into this scope: the callback that is bound to the
    /// configuration of this scope.
    pub open spec fn host_format_callback(&self) -> HostFormatCallback {
        HostFormatCallback { scope_config: self.config_view() }
    }

    /// The way back into this scope for the plugins that it formats with: a
    /// callback bound to this scope, with which it shares its configuration.
    pub fn create_host_format_callback(&self) -> (callback: HostFormatCallback)
        ensures
            callback == self.host_format_callback(),
            callback.leads_into(self),
    {
        HostFormatCallback {
            scope_config: match self.config() {
                Some(config) => Some(share_rc(config)),
                None => None,
            },
        }
    }
}

impl HostFormatCallback {
    /// Whether `scope` is the scope that this callback leads back into: the
    /// scope of the configuration that the callback is bound to.
    pub open spec fn leads_into(&self, scope: &PluginsScope) -> bool {
        self.scope_config == scope.config_view()
    }

    /// Serves a request that a plugin makes: as `PluginsScope::format` does
    /// for any caller.
    pub fn format<I>(&self, scope: &PluginsScope, request: HostFormatRequest, plugin_names: Vec<String>) -> (started: (
        FormatRun,
        FormatAction<I>,
    ))
        ensures
            started == FormatRun::begin(request, plugin_names, scope.host_format_callback()).advance::<
                I,
            >(scope@),
    {
        scope.format(request, plugin_names)
    }
}

/// The run after a whole sequence of events.
pub open spec fn run_after<I>(run: FormatRun, plugins: Seq<PluginWithConfig>, events: Seq<FormatEvent<I>>) -> FormatRun
    decreases events.len(),
{
    if events.len() == 0 {
        run
    } else {
        run_after(run, plugins, events.drop_last()).step(plugins, events.last()).0
    }
}

/// What the run asks for after the event at `place` of a sequence of events.
pub open spec fn action_at<I>(
    run: FormatRun,
    plugins: Seq<PluginWithConfig>,
    events: Seq<FormatEvent<I>>,
    place: int,
) -> FormatAction<I> {
    run_after(run, plugins, events.take(place)).step(plugins, events[place]).1
}

/// Whether an event brings a new text.
pub open spec fn is_new_text<I>(event: FormatEvent<I>) -> bool {
    event matches FormatEvent::Formatted(Ok(Some(_)))
}

/// Whether an action hands a changed text to the caller.
pub open spec fn reports_change<I>(action: FormatAction<I>) -> bool {
    action matches FormatAction::Finished(Ok(Some(_)))
}

/// The last text that the events brought, or `input` where they brought none.
pub open spec fn last_output<I>(input: String, events: Seq<FormatEvent<I>>) -> String
    decreases events.len(),
{
    if events.len() == 0 {
        input
    } else {
        match events.last() {
            FormatEvent::Formatted(Ok(Some(text))) => text,
            _ => last_output(input, events.drop_last()),
        }
    }
}

/// A run that no plugin brought a new text to has not seen a change.
proof fn lemma_no_change_so_far<I>(
    run: FormatRun,
    plugins: Seq<PluginWithConfig>,
    events: Seq<FormatEvent<I>>,
    upto: int,
)
    requires
        !run.had_change,
        0 <= upto <= events.len(),
        forall|i: int| 0 <= i < events.len() ==> !is_new_text(#[trigger] events[i]),
    ensures
        !run_after(run, plugins, events.take(upto)).had_change,
    decreases upto,
{
    if upto > 0 {
        lemma_no_change_so_far(run, plugins, events, upto - 1);
        assert(events.take(upto).drop_last() =~= events.take(upto - 1));
        assert(events.take(upto).last() == events[upto - 1]);
    }
}

/// Where every plugin of a pipeline leaves the text as it is, the run says
/// so: it never hands out a text, not even one equal to what came in.
pub proof fn lemma_unchanged_is_reported<I>(
    request: HostFormatRequest,
    plugin_names: Vec<String>,
    on_host_format: HostFormatCallback,
    plugins: Seq<PluginWithConfig>,
    events: Seq<FormatEvent<I>>,
)
    requires
        forall|i: int| 0 <= i < events.len() ==> !is_new_text(#[trigger] events[i]),
    ensures
        !reports_change(
            FormatRun::begin(request, plugin_names, on_host_format).advance::<I>(plugins).1,
        ),
        forall|i: int|
            0 <= i < events.len() ==> !reports_change(
                #[trigger] action_at(
                    FormatRun::begin(request, plugin_names, on_host_format).advance::<I>(plugins).0,
                    plugins,
                    events,
                    i,
                ),
            ),
{
    let run = FormatRun::begin(request, plugin_names, on_host_format).advance::<I>(plugins).0;
    assert forall|i: int| 0 <= i < events.len() implies !reports_change(
        #[trigger] action_at(run, plugins, events, i),
    ) by {
        lemma_no_change_so_far(run, plugins, events, i);
    }
}

/// While a run is not over, its text is the last that a plugin brought.
proof fn lemma_text_so_far<I>(
    run: FormatRun,
    plugins: Seq<PluginWithConfig>,
    events: Seq<FormatEvent<I>>,
    upto: int,
)
    requires
        0 <= upto <= events.len(),
    ensures
        run_after(run, plugins, events.take(upto)).phase !is Done ==> run_after(
            run,
            plugins,
            events.take(upto),
        ).file_text == last_output(run.file_text, events.take(upto)),
    decreases upto,
{
    if upto > 0 {
        lemma_text_so_far(run, plugins, events, upto - 1);
        assert(events.take(upto).drop_last() =~= events.take(upto - 1));
        assert(events.take(upto).last() == events[upto - 1]);
    }
}

/// Every plugin of a pipeline is given what the plugin before it made of the
/// text: the text that a plugin is asked to format is the last that a plugin
/// handed back, or the text of the request where none did.
pub proof fn lemma_text_is_passed_on<I>(
    run: FormatRun,
    plugins: Seq<PluginWithConfig>,
    events: Seq<FormatEvent<I>>,
    place: int,
)
    requires
        0 <= place < events.len(),
        action_at(run, plugins, events, place) is FormatText,
    ensures
        action_at(run, plugins, events, place)->request.file_text == last_output(
            run.file_text,
            events.take(place),
        ),
{
    lemma_text_so_far(run, plugins, events, place);
}

/// The plugins of a pipeline take their turns in its order: a step never goes
/// back, the plugin that it asks for is the one behind the plugin that just
/// handed back the text, and the plugin that is given the text is the one
/// that was asked for.
pub proof fn lemma_plugins_in_order<I>(run: FormatRun, plugins: Seq<PluginWithConfig>, event: FormatEvent<I>)
    ensures
        run.step(plugins, event).0.plugin_names == run.plugin_names,
        run.step(plugins, event).0.position >= run.position,
        run.step(plugins, event).1 is GetPlugin ==> {
            &&& run.phase is AwaitingText
            &&& run.step(plugins, event).0.position == run.position + 1
            &&& run.step(plugins, event).1->plugin_name == run.plugin_names@[run.position + 1]
        },
        run.step(plugins, event).1 is FormatText ==> {
            &&& run.phase is AwaitingPlugin
            &&& run.step(plugins, event).0.position == run.position
            &&& run.step(plugins, event).1->plugin.plugin.info.name@
                == run.plugin_names@[run.position as int]@
        },
{
    assert(run.plugin_names.len() <= usize::MAX);
}

/// What the first of two plugins makes of a text is what the second is given.
pub proof fn lemma_output_feeds_next_plugin<I>(
    run: FormatRun,
    plugins: Seq<PluginWithConfig>,
    output: String,
    next: InitializedPluginWithConfig<I>,
)
    requires
        run.phase is AwaitingText,
        run.position + 1 < run.plugin_names@.len(),
        has_plugin(plugins, run.plugin_names@[run.position + 1]@),
        next.plugin.info.name@ == run.plugin_names@[run.position + 1]@,
    ensures
        ({
            let first = run.step::<I>(plugins, FormatEvent::Formatted(Ok(Some(output))));
            let second = first.0.step(
                plugins,
                FormatEvent::PluginResolved(Ok(GetPluginResult::Success(next))),
            );
            &&& first.1 == (FormatAction::<I>::GetPlugin {
                plugin_name: run.plugin_names@[run.position + 1],
            })
            &&& second.1 is FormatText
            &&& second.1->plugin == next
            &&& second.1->request.file_text == output
        }),
{
    assert(run.plugin_names.len() <= usize::MAX);
}

/// A run keeps the way back that it began with.
proof fn lemma_callback_so_far<I>(
    run: FormatRun,
    plugins: Seq<PluginWithConfig>,
    events: Seq<FormatEvent<I>>,
    upto: int,
)
    requires
        0 <= upto <= events.len(),
    ensures
        run_after(run, plugins, events.take(upto)).on_host_format == run.on_host_format,
    decreases upto,
{
    if upto > 0 {
        lemma_callback_so_far(run, plugins, events, upto - 1);
        assert(events.take(upto).drop_last() =~= events.take(upto - 1));
        assert(events.take(upto).last() == events[upto - 1]);
    }
}

/// What a plugin delegates goes back into the scope that the run began in:
/// whatever happens in a run that a scope began, every plugin that is given
/// the text is given a callback that leads back into that scope.
pub proof fn lemma_delegation_targets_the_scope<I>(
    scope: PluginsScope,
    request: HostFormatRequest,
    plugin_names: Vec<String>,
    events: Seq<FormatEvent<I>>,
    place: int,
)
    requires
        0 <= place < events.len(),
        action_at(
            FormatRun::begin(request, plugin_names, scope.host_format_callback()).advance::<I>(
                scope@,
            ).0,
            scope@,
            events,
            place,
        ) is FormatText,
    ensures
        action_at(
            FormatRun::begin(request, plugin_names, scope.host_format_callback()).advance::<I>(
                scope@,
            ).0,
            scope@,
            events,
            place,
        )->request.on_host_format.leads_into(&scope),
{
    let run = FormatRun::begin(request, plugin_names, scope.host_format_callback()).advance::<I>(
        scope@,
    ).0;
    lemma_callback_so_far(run, scope@, events, place);
}

/// A request that a plugin makes through the way back into its scope is
/// served as the same request from any other caller: both begin the same
/// run, which then answers every event alike.
pub proof fn lemma_host_format_is_format<I>(
    scope: PluginsScope,
    callback: HostFormatCallback,
    request: HostFormatRequest,
    plugin_names: Vec<String>,
    direct: (FormatRun, FormatAction<I>),
    nested: (FormatRun, FormatAction<I>),
)
    requires
        call_ensures(PluginsScope::format::<I>, (&scope, request, plugin_names), direct),
        call_ensures(HostFormatCallback::format::<I>, (&callback, &scope, request, plugin_names), nested),
    ensures
        direct == nested,
        forall|events: Seq<FormatEvent<I>>, place: int|
            0 <= place < events.len() ==> #[trigger] action_at(direct.0, scope@, events, place)
                == action_at(nested.0, scope@, events, place),
{
}

} // verus!
