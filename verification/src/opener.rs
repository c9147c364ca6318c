//! Opener dispatch: command-line specifications, the plan by which a path is
//! opened, and the steps by which a plan is carried out.

use crate::text::{
    append, contains, from_chars, is_whitespace, lowercase, occurs_in, to_ascii_lowercase,
    to_chars, trim_window, trimmed, whitespace,
};
use vstd::prelude::*;

verus! {

/// The state of the tokenizer between two characters.
pub struct Scan {
    /// The tokens that are complete.
    pub tokens: Seq<Seq<char>>,
    /// The token that is being read.
    pub current: Seq<char>,
    /// Whether a double-quoted span is open.
    pub in_quotes: bool,
}

impl Scan {
    /// The state before the first character.
    pub open spec fn start() -> Scan {
        Scan { tokens: Seq::empty(), current: Seq::empty(), in_quotes: false }
    }

    /// This state with `c` added to the token that is being read.
    pub open spec fn take(self, c: char) -> Scan {
        Scan { current: self.current.push(c), ..self }
    }

    /// This state with the token that is being read closed: it joins the
    /// complete tokens unless it is empty.
    pub open spec fn flush(self) -> Scan {
        if self.current.len() > 0 {
            Scan { tokens: self.tokens.push(self.current), current: Seq::empty(), ..self }
        } else {
            self
        }
    }
}

/// The state in which the tokenizer, in state `st` before `s[i]`, reaches the
/// end of `s`.
///
/// A double quote opens or closes a quoted span and is dropped. Inside a
/// quoted span a backslash is dropped and the character after it is taken as
/// it is; a backslash at the very end is dropped. White space outside a
/// quoted span closes the token. Every other character is taken.
pub open spec fn scan_from(s: Seq<char>, i: int, st: Scan) -> Scan
    decreases s.len() - i,
{
    if i < 0 || i >= s.len() {
        st
    } else if s[i] == '"' {
        scan_from(s, i + 1, Scan { in_quotes: !st.in_quotes, ..st })
    } else if s[i] == '\\' && st.in_quotes {
        if i + 1 < s.len() {
            scan_from(s, i + 2, st.take(s[i + 1]))
        } else {
            st
        }
    } else if whitespace(s[i]) && !st.in_quotes {
        scan_from(s, i + 1, st.flush())
    } else {
        scan_from(s, i + 1, st.take(s[i]))
    }
}

/// The tokens of a command-line specification.
pub open spec fn command_line_tokens(s: Seq<char>) -> Seq<Seq<char>> {
    scan_from(s, 0, Scan::start()).flush().tokens
}

/// Every one of `tokens` holds a character.
pub open spec fn none_empty(tokens: Seq<Seq<char>>) -> bool {
    forall|k: int| 0 <= k < tokens.len() ==> (#[trigger] tokens[k]).len() > 0
}

/// No character of `text` is white space.
pub open spec fn no_whitespace(text: Seq<char>) -> bool {
    forall|j: int| 0 <= j < text.len() ==> !whitespace(#[trigger] text[j])
}

/// No character of any of `tokens` is white space.
pub open spec fn none_holds_whitespace(tokens: Seq<Seq<char>>) -> bool {
    forall|k: int| 0 <= k < tokens.len() ==> no_whitespace(#[trigger] tokens[k])
}

/// The tokenizer never completes an empty token.
pub proof fn lemma_scan_completes_no_empty_token(s: Seq<char>, i: int, st: Scan)
    requires
        none_empty(st.tokens),
    ensures
        none_empty(scan_from(s, i, st).tokens),
        none_empty(scan_from(s, i, st).flush().tokens),
    decreases s.len() - i,
{
    if 0 <= i < s.len() {
        if s[i] == '"' {
            lemma_scan_completes_no_empty_token(s, i + 1, Scan { in_quotes: !st.in_quotes, ..st });
        } else if s[i] == '\\' && st.in_quotes {
            if i + 1 < s.len() {
                lemma_scan_completes_no_empty_token(s, i + 2, st.take(s[i + 1]));
            }
        } else if whitespace(s[i]) && !st.in_quotes {
            lemma_scan_completes_no_empty_token(s, i + 1, st.flush());
        } else {
            lemma_scan_completes_no_empty_token(s, i + 1, st.take(s[i]));
        }
    }
}

/// No token of a command-line specification is empty.
pub proof fn lemma_tokens_are_not_empty(s: Seq<char>)
    ensures
        none_empty(command_line_tokens(s)),
{
    lemma_scan_completes_no_empty_token(s, 0, Scan::start());
}

/// Outside quotes the tokenizer takes no white space into a token.
pub proof fn lemma_scan_without_quotes(s: Seq<char>, i: int, st: Scan)
    requires
        !s.contains('"'),
        !st.in_quotes,
        none_holds_whitespace(st.tokens),
        no_whitespace(st.current),
    ensures
        none_holds_whitespace(scan_from(s, i, st).flush().tokens),
    decreases s.len() - i,
{
    if 0 <= i < s.len() {
        assert(s[i] != '"');
        if whitespace(s[i]) {
            lemma_scan_without_quotes(s, i + 1, st.flush());
        } else {
            lemma_scan_without_quotes(s, i + 1, st.take(s[i]));
        }
    }
}

/// Of a specification without a double quote, no token holds white space:
/// the tokens are the words of the specification.
pub proof fn lemma_unquoted_tokens_are_words(s: Seq<char>)
    requires
        !s.contains('"'),
    ensures
        none_holds_whitespace(command_line_tokens(s)),
        none_empty(command_line_tokens(s)),
{
    lemma_scan_without_quotes(s, 0, Scan::start());
    lemma_tokens_are_not_empty(s);
}

/// Splits a command-line specification into its tokens, as a shell would in
/// the simplest cases: white space separates tokens, double quotes keep white
/// space inside a token, and a backslash inside quotes takes the next
/// character literally. A quote that is never closed runs to the end.
pub fn parse_cmdline(s: &str) -> (tokens: Vec<String>)
    ensures
        tokens.deep_view() == command_line_tokens(s@),
        none_empty(tokens.deep_view()),
{
    proof {
        lemma_tokens_are_not_empty(s@);
    }
    let chars = to_chars(s);
    let mut out: Vec<String> = Vec::new();
    let mut buf: Vec<char> = Vec::new();
    let mut in_quotes = false;
    let mut i: usize = 0;
    assert(out.deep_view() =~= Seq::<Seq<char>>::empty());
    while i < chars.len()
        invariant
            i <= chars@.len(),
            chars@ == s@,
            scan_from(s@, 0, Scan::start()) == scan_from(
                s@,
                i as int,
                Scan { tokens: out.deep_view(), current: buf@, in_quotes },
            ),
        decreases chars.len() - i,
    {
        let ch = chars[i];
        if ch == '"' {
            in_quotes = !in_quotes;
            i += 1;
        } else if ch == '\\' && in_quotes {
            if i + 1 < chars.len() {
                buf.push(chars[i + 1]);
                i += 2;
            } else {
                i += 1;
            }
        } else if is_whitespace(ch) && !in_quotes {
            if buf.len() > 0 {
                let ghost before = out.deep_view();
                out.push(from_chars(buf.as_slice(), 0, buf.len()));
                assert(buf@.subrange(0, buf@.len() as int) =~= buf@);
                assert(out.deep_view() =~= before.push(buf@));
                buf.clear();
            }
            i += 1;
        } else {
            buf.push(ch);
            i += 1;
        }
    }
    if buf.len() > 0 {
        let ghost before = out.deep_view();
        out.push(from_chars(buf.as_slice(), 0, buf.len()));
        assert(buf@.subrange(0, buf@.len() as int) =~= buf@);
        assert(out.deep_view() =~= before.push(buf@));
    }
    out
}

/// The family of operating system that the browser runs on. It decides how
/// a command is looked up and which program opens a path by default.
#[derive(Debug, Clone, Copy, PartialEq, Eq)]
pub enum Platform {
    MacOs,
    Windows,
    Other,
}

/// A process to start: a program and its arguments.
#[derive(Debug, Clone, PartialEq, Eq)]
pub struct Launch {
    pub program: String,
    pub args: Vec<String>,
}

/// The mathematical value of a [`Launch`].
pub struct LaunchView {
    pub program: Seq<char>,
    pub args: Seq<Seq<char>>,
}

impl View for Launch {
    type V = LaunchView;

    open spec fn view(&self) -> LaunchView {
        LaunchView { program: self.program@, args: self.args.deep_view() }
    }
}

/// Why a path was not opened.
#[derive(Debug, Clone, PartialEq, Eq)]
pub enum OpenError {
    /// The command-line specification holds no token.
    EmptyCommandSpec,
    /// The program of the specification is neither on the search path nor
    /// in the file system.
    CommandNotFound(String),
    /// The operating system did not start the process; its description of
    /// the failure.
    SpawnFailure(String),
}

/// The mathematical value of an [`OpenError`].
pub enum OpenErrorView {
    EmptyCommandSpec,
    CommandNotFound(Seq<char>),
    SpawnFailure(Seq<char>),
}

impl View for OpenError {
    type V = OpenErrorView;

    open spec fn view(&self) -> OpenErrorView {
        match self {
            OpenError::EmptyCommandSpec => OpenErrorView::EmptyCommandSpec,
            OpenError::CommandNotFound(name) => OpenErrorView::CommandNotFound(name@),
            OpenError::SpawnFailure(reason) => OpenErrorView::SpawnFailure(reason@),
        }
    }
}

impl OpenErrorView {
    /// The error in words.
    pub open spec fn message(self) -> Seq<char> {
        match self {
            OpenErrorView::EmptyCommandSpec => "empty command spec"@,
            OpenErrorView::CommandNotFound(name) => "command not found: "@ + name,
            OpenErrorView::SpawnFailure(reason) => reason,
        }
    }
}

impl OpenError {
    /// The error in words, as the status line shows it.
    pub fn message(&self) -> (text: String)
        ensures
            text@ == self@.message(),
    {
        match self {
            OpenError::EmptyCommandSpec => "empty command spec".to_owned(),
            OpenError::CommandNotFound(name) => {
                let mut text = "command not found: ".to_owned();
                append(&mut text, name.as_str());
                text
            },
            OpenError::SpawnFailure(reason) => reason.clone(),
        }
    }
}

/// The outcome of an attempt to open a path, as a value of the model.
pub open spec fn outcome_view(outcome: Result<(), OpenError>) -> Result<(), OpenErrorView> {
    match outcome {
        Ok(()) => Ok(()),
        Err(e) => Err(e@),
    }
}

/// The variables of the process environment that hold text, as pairs of a
/// name and a value. Where a name stands twice, the first pair counts.
#[derive(Debug, Clone, PartialEq, Eq)]
pub struct Environment {
    pub vars: Vec<(String, String)>,
}

impl View for Environment {
    type V = Seq<(Seq<char>, Seq<char>)>;

    open spec fn view(&self) -> Seq<(Seq<char>, Seq<char>)> {
        self.vars.deep_view()
    }
}

/// The value of the first variable of `vars` that is named `key`.
pub open spec fn lookup(vars: Seq<(Seq<char>, Seq<char>)>, key: Seq<char>) -> Option<Seq<char>>
    decreases vars.len(),
{
    if vars.len() == 0 {
        None
    } else if vars[0].0 == key {
        Some(vars[0].1)
    } else {
        lookup(vars.drop_first(), key)
    }
}

impl Environment {
    /// The value of the variable `key`, if it is set.
    pub fn get(&self, key: &str) -> (value: Option<String>)
        ensures
            value.deep_view() == lookup(self@, key@),
    {
        let wanted: String = key.to_owned();
        let mut i: usize = 0;
        assert(self@.skip(0) =~= self@);
        while i < self.vars.len()
            invariant
                i <= self.vars@.len(),
                wanted@ == key@,
                lookup(self@, key@) == lookup(self@.skip(i as int), key@),
            decreases self.vars.len() - i,
        {
            assert(self@.skip(i as int).drop_first() =~= self@.skip(i + 1));
            if self.vars[i].0 == wanted {
                return Some(self.vars[i].1.clone());
            }
            i += 1;
        }
        None
    }
}

/// Start of the name of the variable that holds the opener of one file
/// extension; the extension in lower case follows.
pub const EXTENSION_VAR_PREFIX: &'static str = "FILE_PICKER_EXT_";

/// Name of the variable that lists further openers, separated by
/// semicolons or line breaks.
pub const OPENERS_VAR: &'static str = "FILE_PICKER_OPENERS";

/// Name of the variable that names the preferred application.
pub const APP_VAR: &'static str = "FILE_PICKER_APP";

/// Name of the variable that holds the preferred bundle identifier.
pub const BUNDLE_VAR: &'static str = "FILE_PICKER_BUNDLE";

/// The name of the variable that holds the opener of the extension `ext`.
pub open spec fn extension_var(ext: Seq<char>) -> Seq<char> {
    EXTENSION_VAR_PREFIX@ + lowercase(ext)
}

/// The opener that the environment registers for the extension `ext`.
pub open spec fn extension_override(ext: Option<Seq<char>>, vars: Seq<(Seq<char>, Seq<char>)>)
    -> Option<Seq<char>> {
    match ext {
        Some(e) => lookup(vars, extension_var(e)),
        None => None,
    }
}

/// Looks up the opener that the environment registers for an extension.
pub fn find_extension_override(ext: Option<&str>, env: &Environment) -> (spec: Option<String>)
    ensures
        spec.deep_view() == extension_override(ext.deep_view(), env@),
{
    match ext {
        Some(e) => {
            let mut key: String = EXTENSION_VAR_PREFIX.to_owned();
            let lowered = to_ascii_lowercase(e);
            append(&mut key, lowered.as_str());
            env.get(key.as_str())
        },
        None => None,
    }
}

impl DeepView for Launch {
    type V = LaunchView;

    open spec fn deep_view(&self) -> LaunchView {
        self@
    }
}

/// The launch that a tokenized specification asks for on `path`: the first
/// token is the program, the others are its arguments, and the path follows
/// them as the last argument.
pub open spec fn launch_of(tokens: Seq<Seq<char>>, path: Seq<char>) -> LaunchView
    recommends
        tokens.len() > 0,
{
    LaunchView { program: tokens[0], args: tokens.subrange(1, tokens.len() as int).push(path) }
}

/// Builds the launch of a tokenized specification on `path`.
fn launch_from_tokens(tokens: Vec<String>, path: &str) -> (launch: Launch)
    requires
        tokens@.len() > 0,
    ensures
        launch@ == launch_of(tokens.deep_view(), path@),
{
    let ghost all = tokens.deep_view();
    let mut args = tokens;
    let program = args.remove(0);
    assert(args.deep_view() =~= all.subrange(1, all.len() as int));
    let ghost tail = args.deep_view();
    args.push(path.to_owned());
    assert(args.deep_view() =~= tail.push(path@));
    Launch { program, args }
}

/// Builds the launch of `program` with the given arguments.
fn launch_with(program: &str, first: Option<(&str, &str)>, path: &str) -> (launch: Launch)
    ensures
        launch@.program == program@,
        first matches Some(option) ==> launch@.args == seq![option.0@, option.1@, path@],
        first is None ==> launch@.args == seq![path@],
{
    let mut args: Vec<String> = Vec::new();
    match first {
        Some((flag, value)) => {
            args.push(flag.to_owned());
            args.push(value.to_owned());
            args.push(path.to_owned());
            assert(args.deep_view() =~= seq![flag@, value@, path@]);
        },
        None => {
            args.push(path.to_owned());
            assert(args.deep_view() =~= seq![path@]);
        },
    }
    Launch { program: program.to_owned(), args }
}

/// How a path is opened: launches that are tried in order.
///
/// Each of `optional` is tried only if its program is found, and a failure
/// of it leads on to the next. `last` decides the outcome: it is looked up
/// first only where `last_must_exist` says so.
#[derive(Debug, Clone, PartialEq, Eq)]
pub struct OpenPlan {
    pub optional: Vec<Launch>,
    pub last: Launch,
    pub last_must_exist: bool,
}

/// The mathematical value of an [`OpenPlan`].
pub struct OpenPlanView {
    pub optional: Seq<LaunchView>,
    pub last: LaunchView,
    pub last_must_exist: bool,
}

impl View for OpenPlan {
    type V = OpenPlanView;

    open spec fn view(&self) -> OpenPlanView {
        OpenPlanView {
            optional: self.optional.deep_view(),
            last: self.last@,
            last_must_exist: self.last_must_exist,
        }
    }
}

/// The plan of an explicitly chosen opener: one launch, whose program must
/// exist.
pub open spec fn chosen_plan(spec: Seq<char>, path: Seq<char>) -> OpenPlanView {
    OpenPlanView {
        optional: Seq::empty(),
        last: launch_of(command_line_tokens(spec), path),
        last_must_exist: true,
    }
}

/// Plans the opening of `path` with the opener `spec`.
///
/// Fails with `EmptyCommandSpec` exactly where the specification holds no
/// token. The plan's program is looked up before it is started.
pub fn open_with_spec(spec: &str, path: &str) -> (plan: Result<OpenPlan, OpenError>)
    ensures
        plan is Err <==> command_line_tokens(spec@).len() == 0,
        plan matches Err(e) ==> e@ == OpenErrorView::EmptyCommandSpec,
        plan matches Ok(p) ==> p@ == chosen_plan(spec@, path@),
{
    let tokens = parse_cmdline(spec);
    if tokens.len() == 0 {
        return Err(OpenError::EmptyCommandSpec);
    }
    let last = launch_from_tokens(tokens, path);
    let optional: Vec<Launch> = Vec::new();
    assert(optional.deep_view() =~= Seq::<LaunchView>::empty());
    Ok(OpenPlan { optional, last, last_must_exist: true })
}

/// The launch by which the platform opens `path` when nothing else did.
///
/// On macOS `open`, for the preferred application if one is named, else for
/// the preferred bundle if one is named, else plainly; elsewhere `xdg-open`.
pub open spec fn default_launch(
    path: Seq<char>,
    platform: Platform,
    vars: Seq<(Seq<char>, Seq<char>)>,
) -> LaunchView {
    match platform {
        Platform::MacOs => match lookup(vars, APP_VAR@) {
            Some(app) => LaunchView { program: "open"@, args: seq!["-a"@, app, path] },
            None => match lookup(vars, BUNDLE_VAR@) {
                Some(bundle) => LaunchView { program: "open"@, args: seq!["-b"@, bundle, path] },
                None => LaunchView { program: "open"@, args: seq![path] },
            },
        },
        _ => LaunchView { program: "xdg-open"@, args: seq![path] },
    }
}

/// The launches that are tried before the platform's default: that of the
/// opener registered for the extension, if there is one and it holds a
/// token.
pub open spec fn override_launches(
    path: Seq<char>,
    ext: Option<Seq<char>>,
    vars: Seq<(Seq<char>, Seq<char>)>,
) -> Seq<LaunchView> {
    match extension_override(ext, vars) {
        Some(spec) => {
            let tokens = command_line_tokens(spec);
            if tokens.len() == 0 {
                Seq::empty()
            } else {
                seq![launch_of(tokens, path)]
            }
        },
        None => Seq::empty(),
    }
}

/// The plan by which `path`, whose extension is `ext`, is opened.
pub open spec fn default_plan(
    path: Seq<char>,
    ext: Option<Seq<char>>,
    platform: Platform,
    vars: Seq<(Seq<char>, Seq<char>)>,
) -> OpenPlanView {
    OpenPlanView {
        optional: override_launches(path, ext, vars),
        last: default_launch(path, platform, vars),
        last_must_exist: false,
    }
}

/// Plans the opening of `path`, whose extension is `ext`: first the opener
/// that the environment registers for the extension, then the platform's
/// default, which is started without being looked up.
pub fn open_path_with_extension(
    path: &str,
    ext: Option<&str>,
    platform: Platform,
    env: &Environment,
) -> (plan: OpenPlan)
    ensures
        plan@ == default_plan(path@, ext.deep_view(), platform, env@),
{
    let mut optional: Vec<Launch> = Vec::new();
    assert(optional.deep_view() =~= Seq::<LaunchView>::empty());
    match find_extension_override(ext, env) {
        Some(spec) => {
            let tokens = parse_cmdline(spec.as_str());
            if tokens.len() > 0 {
                let launch = launch_from_tokens(tokens, path);
                optional.push(launch);
                assert(optional.deep_view() =~= seq![launch@]);
            }
        },
        None => {},
    }
    let last = match platform {
        Platform::MacOs => match env.get(APP_VAR) {
            Some(app) => launch_with("open", Some(("-a", app.as_str())), path),
            None => match env.get(BUNDLE_VAR) {
                Some(bundle) => launch_with("open", Some(("-b", bundle.as_str())), path),
                None => launch_with("open", None, path),
            },
        },
        _ => launch_with("xdg-open", None, path),
    };
    OpenPlan { optional, last, last_must_exist: false }
}

/// The text that `Path::extension` may give for the path `path`: it holds
/// no dot, and it stands in the path behind a dot.
pub open spec fn may_be_extension(path: Seq<char>, ext: Seq<char>) -> bool {
    !ext.contains('.') && occurs_in(path, seq!['.'] + ext)
}

/// `Path::extension` of the standard library, on a path that is text: the
/// part of the path's last component behind that component's last dot, if
/// the component has one that is not its first character. Of the result
/// this states only that it holds no dot and follows a dot in the path.
#[verifier::external_body]
fn path_extension(path: &str) -> (ext: Option<String>)
    ensures
        ext matches Some(e) ==> may_be_extension(path@, e@),
{
    match std::path::Path::new(path).extension() {
        Some(ext) => match ext.to_str() {
            Some(text) => Some(text.to_owned()),
            None => None,
        },
        None => None,
    }
}

/// Plans the opening of `path`: first the opener that the environment
/// registers for the path's extension, then the platform's default.
///
/// The plan is that of [`open_path_with_extension`] for the extension that
/// the standard library finds in the path.
pub fn open_path(path: &str, platform: Platform, env: &Environment) -> (plan: OpenPlan)
    ensures
        exists|ext: Option<Seq<char>>|
            {
                &&& ext matches Some(e) ==> may_be_extension(path@, e)
                &&& #[trigger] default_plan(path@, ext, platform, env@) == plan@
            },
        !plan@.last_must_exist,
        plan@.last == default_launch(path@, platform, env@),
{
    let found = path_extension(path);
    let ext: Option<&str> = match &found {
        Some(e) => Some(e.as_str()),
        None => None,
    };
    let plan = open_path_with_extension(path, ext, platform, env);
    assert(default_plan(path@, ext.deep_view(), platform, env@) == plan@);
    plan
}

/// What the caller does next to carry out a plan. The number names one of
/// the plan's launches: the optional ones count from zero, the last one
/// comes after them.
#[derive(Debug, PartialEq, Eq)]
pub enum OpenStep {
    /// Find out whether the program of this launch exists.
    Probe(usize),
    /// Start the process of this launch, without waiting for it.
    Spawn(usize),
    /// Nothing: this is the outcome.
    Done(Result<(), OpenError>),
}

/// The mathematical value of an [`OpenStep`].
pub enum OpenStepView {
    Probe(nat),
    Spawn(nat),
    Done(Result<(), OpenErrorView>),
}

impl View for OpenStep {
    type V = OpenStepView;

    open spec fn view(&self) -> OpenStepView {
        match self {
            OpenStep::Probe(i) => OpenStepView::Probe(*i as nat),
            OpenStep::Spawn(i) => OpenStepView::Spawn(*i as nat),
            OpenStep::Done(outcome) => OpenStepView::Done(outcome_view(*outcome)),
        }
    }
}

impl OpenPlanView {
    /// The launch with the given number.
    pub open spec fn attempt(self, i: nat) -> LaunchView {
        if i < self.optional.len() {
            self.optional[i as int]
        } else {
            self.last
        }
    }

    /// The first step on the launch `i`: it is looked up, unless it is the
    /// last and need not exist.
    pub open spec fn enter(self, i: nat) -> OpenStepView {
        if i < self.optional.len() || self.last_must_exist {
            OpenStepView::Probe(i)
        } else {
            OpenStepView::Spawn(i)
        }
    }

    /// The step after the program of launch `i` was looked up. A program
    /// that was found is started. One that is missing ends the plan with
    /// `CommandNotFound` if the launch is the last, and is passed over
    /// otherwise.
    pub open spec fn after_probe(self, i: nat, found: bool) -> OpenStepView {
        if found {
            OpenStepView::Spawn(i)
        } else if i < self.optional.len() {
            self.enter(i + 1)
        } else {
            OpenStepView::Done(Err(OpenErrorView::CommandNotFound(self.last.program)))
        }
    }

    /// The step after launch `i` was started, where `failure` is what the
    /// operating system said if it did not start it. A process that was
    /// started ends the plan with success. A failure ends it with
    /// `SpawnFailure` if the launch is the last, and is passed over
    /// otherwise.
    pub open spec fn after_spawn(self, i: nat, failure: Option<Seq<char>>) -> OpenStepView {
        match failure {
            None => OpenStepView::Done(Ok(())),
            Some(reason) => if i < self.optional.len() {
                self.enter(i + 1)
            } else {
                OpenStepView::Done(Err(OpenErrorView::SpawnFailure(reason)))
            },
        }
    }

    /// How far a step is from the end of the plan.
    pub open spec fn steps_left(self, step: OpenStepView) -> nat {
        match step {
            OpenStepView::Probe(i) => (2 * (self.optional.len() - i) + 2) as nat,
            OpenStepView::Spawn(i) => (2 * (self.optional.len() - i) + 1) as nat,
            OpenStepView::Done(_) => 0,
        }
    }

    /// The outcome that the plan comes to from `step` on, where `found`
    /// says of each launch whether its program exists, and `failure` what
    /// the operating system says if it does not start it.
    pub open spec fn run(
        self,
        step: OpenStepView,
        found: spec_fn(nat) -> bool,
        failure: spec_fn(nat) -> Option<Seq<char>>,
    ) -> Result<(), OpenErrorView>
        decreases self.steps_left(step),
    {
        match step {
            OpenStepView::Probe(i) => if i <= self.optional.len() {
                self.run(self.after_probe(i, found(i)), found, failure)
            } else {
                Err(OpenErrorView::CommandNotFound(self.last.program))
            },
            OpenStepView::Spawn(i) => if i <= self.optional.len() {
                self.run(self.after_spawn(i, failure(i)), found, failure)
            } else {
                Ok(())
            },
            OpenStepView::Done(outcome) => outcome,
        }
    }

    /// Whether one of the optional launches from `from` on is found and
    /// started.
    pub open spec fn optional_wins(
        self,
        from: nat,
        found: spec_fn(nat) -> bool,
        failure: spec_fn(nat) -> Option<Seq<char>>,
    ) -> bool {
        exists|i: nat| from <= i < self.optional.len() && #[trigger] starts(i, found, failure)
    }

    /// The outcome of the plan: success if one of the optional launches is
    /// found and started; else what the last launch comes to, which is
    /// `CommandNotFound` if it must exist and does not, `SpawnFailure` with
    /// the words of the operating system if it is not started, and success
    /// if it is.
    pub open spec fn outcome(
        self,
        found: spec_fn(nat) -> bool,
        failure: spec_fn(nat) -> Option<Seq<char>>,
    ) -> Result<(), OpenErrorView> {
        if self.optional_wins(0, found, failure) {
            Ok(())
        } else {
            self.last_outcome(found, failure)
        }
    }

    /// What the last launch comes to.
    pub open spec fn last_outcome(
        self,
        found: spec_fn(nat) -> bool,
        failure: spec_fn(nat) -> Option<Seq<char>>,
    ) -> Result<(), OpenErrorView> {
        let last = self.optional.len();
        if self.last_must_exist && !found(last) {
            Err(OpenErrorView::CommandNotFound(self.last.program))
        } else {
            match failure(last) {
                Some(reason) => Err(OpenErrorView::SpawnFailure(reason)),
                None => Ok(()),
            }
        }
    }
}

/// Whether the launch `i` is found and started.
pub open spec fn starts(
    i: nat,
    found: spec_fn(nat) -> bool,
    failure: spec_fn(nat) -> Option<Seq<char>>,
) -> bool {
    found(i) && failure(i) is None
}

/// Following the steps from the launch `from` on comes to success if one of
/// the optional launches from there on is found and started, and else to
/// what the last launch comes to.
pub proof fn lemma_run_from(
    plan: OpenPlanView,
    from: nat,
    found: spec_fn(nat) -> bool,
    failure: spec_fn(nat) -> Option<Seq<char>>,
)
    requires
        from <= plan.optional.len(),
    ensures
        plan.run(plan.enter(from), found, failure) == if plan.optional_wins(from, found, failure) {
            Ok(())
        } else {
            plan.last_outcome(found, failure)
        },
    decreases plan.optional.len() - from,
{
    reveal_with_fuel(OpenPlanView::run, 3);
    if from < plan.optional.len() {
        lemma_run_from(plan, from + 1, found, failure);
        if starts(from, found, failure) {
            assert(plan.optional_wins(from, found, failure));
        } else {
            assert(plan.optional_wins(from, found, failure) == plan.optional_wins(
                from + 1,
                found,
                failure,
            ));
        }
    }
}

/// Carrying a plan out step by step comes to the plan's outcome: the first
/// optional launch that is found and started wins, and where none is, the
/// last launch decides.
pub proof fn lemma_steps_reach_outcome(
    plan: OpenPlanView,
    found: spec_fn(nat) -> bool,
    failure: spec_fn(nat) -> Option<Seq<char>>,
)
    ensures
        plan.run(plan.enter(0), found, failure) == plan.outcome(found, failure),
{
    lemma_run_from(plan, 0, found, failure);
}

/// An explicitly chosen opener fails with `CommandNotFound` exactly where
/// its program is missing, with `SpawnFailure` exactly where the program
/// is there and the process is not started, and succeeds otherwise.
pub proof fn lemma_chosen_outcome(
    spec: Seq<char>,
    path: Seq<char>,
    found: spec_fn(nat) -> bool,
    failure: spec_fn(nat) -> Option<Seq<char>>,
)
    ensures
        chosen_plan(spec, path).outcome(found, failure) == if !found(0) {
            Err(OpenErrorView::CommandNotFound(command_line_tokens(spec)[0]))
        } else {
            match failure(0) {
                Some(reason) => Err(OpenErrorView::SpawnFailure(reason)),
                None => Ok(()),
            }
        },
{
}

/// Opening by default never fails for want of a command: it either
/// succeeds or fails with `SpawnFailure`, with the words that the operating
/// system had for the platform's default.
pub proof fn lemma_default_outcome(
    path: Seq<char>,
    ext: Option<Seq<char>>,
    platform: Platform,
    vars: Seq<(Seq<char>, Seq<char>)>,
    found: spec_fn(nat) -> bool,
    failure: spec_fn(nat) -> Option<Seq<char>>,
)
    ensures
        ({
            let plan = default_plan(path, ext, platform, vars);
            ||| plan.outcome(found, failure) is Ok
            ||| failure(plan.optional.len()) matches Some(reason) && plan.outcome(found, failure)
                == Err::<(), OpenErrorView>(OpenErrorView::SpawnFailure(reason))
        }),
{
}

impl OpenPlan {
    /// The launch with the given number.
    pub fn attempt(&self, i: usize) -> (launch: &Launch)
        ensures
            launch@ == self@.attempt(i as nat),
    {
        if i < self.optional.len() {
            &self.optional[i]
        } else {
            &self.last
        }
    }

    /// The first step on the launch `i`.
    fn enter(&self, i: usize) -> (step: OpenStep)
        ensures
            step@ == self@.enter(i as nat),
    {
        if i < self.optional.len() || self.last_must_exist {
            OpenStep::Probe(i)
        } else {
            OpenStep::Spawn(i)
        }
    }

    /// The first step of the plan.
    pub fn start(&self) -> (step: OpenStep)
        ensures
            step@ == self@.enter(0),
    {
        self.enter(0)
    }

    /// The step after the program of launch `i` was looked up.
    pub fn after_probe(&self, i: usize, found: bool) -> (step: OpenStep)
        ensures
            step@ == self@.after_probe(i as nat, found),
    {
        if found {
            OpenStep::Spawn(i)
        } else if i < self.optional.len() {
            self.enter(i + 1)
        } else {
            OpenStep::Done(Err(OpenError::CommandNotFound(self.last.program.clone())))
        }
    }

    /// The step after launch `i` was started; `failure` is what the
    /// operating system said if it did not start it.
    pub fn after_spawn(&self, i: usize, failure: Option<String>) -> (step: OpenStep)
        ensures
            step@ == self@.after_spawn(i as nat, failure.deep_view()),
    {
        match failure {
            None => OpenStep::Done(Ok(())),
            Some(reason) => if i < self.optional.len() {
                self.enter(i + 1)
            } else {
                OpenStep::Done(Err(OpenError::SpawnFailure(reason)))
            },
        }
    }
}

/// How to find out whether a command exists.
#[derive(Debug, Clone, PartialEq, Eq)]
pub enum Probe {
    /// The command is a path: it exists if that file does.
    FileExists(String),
    /// The command is a name: it exists if this process runs and succeeds.
    Run(Launch),
}

/// The mathematical value of a [`Probe`].
pub enum ProbeView {
    FileExists(Seq<char>),
    Run(LaunchView),
}

impl View for Probe {
    type V = ProbeView;

    open spec fn view(&self) -> ProbeView {
        match self {
            Probe::FileExists(path) => ProbeView::FileExists(path@),
            Probe::Run(launch) => ProbeView::Run(launch@),
        }
    }
}

/// Whether a command is written as a path: it holds a slash or a backslash.
pub open spec fn names_a_file(command: Seq<char>) -> bool {
    command.contains('/') || command.contains('\\')
}

/// How the existence of `command` is found out: a path is looked at in the
/// file system, a name is looked up on the search path, by `where` on
/// Windows and by the shell's `command -v` elsewhere.
pub open spec fn probe_for(command: Seq<char>, platform: Platform) -> ProbeView {
    if names_a_file(command) {
        ProbeView::FileExists(command)
    } else {
        match platform {
            Platform::Windows => ProbeView::Run(
                LaunchView { program: "where"@, args: seq![command] },
            ),
            _ => ProbeView::Run(
                LaunchView { program: "sh"@, args: seq!["-c"@, "command -v "@ + command] },
            ),
        }
    }
}

/// Decides how the existence of `command` is found out.
pub fn command_probe(command: &str, platform: Platform) -> (probe: Probe)
    ensures
        probe@ == probe_for(command@, platform),
{
    let chars = to_chars(command);
    let mut i: usize = 0;
    while i < chars.len()
        invariant
            i <= chars@.len(),
            chars@ == command@,
            forall|k: int| 0 <= k < i ==> chars@[k] != '/' && chars@[k] != '\\',
        decreases chars.len() - i,
    {
        if chars[i] == '/' || chars[i] == '\\' {
            return Probe::FileExists(command.to_owned());
        }
        i += 1;
    }
    let mut args: Vec<String> = Vec::new();
    match platform {
        Platform::Windows => {
            args.push(command.to_owned());
            assert(args.deep_view() =~= seq![command@]);
            Probe::Run(Launch { program: "where".to_owned(), args })
        },
        _ => {
            let mut script: String = "command -v ".to_owned();
            append(&mut script, command);
            args.push("-c".to_owned());
            args.push(script);
            assert(args.deep_view() =~= seq!["-c"@, "command -v "@ + command@]);
            Probe::Run(Launch { program: "sh".to_owned(), args })
        },
    }
}

/// The first entry of every opener menu: open by the platform's default.
pub const SYSTEM_DEFAULT: &'static str = "System Default";

/// Whether `c` ends an entry of the list of openers.
pub open spec fn is_separator(c: char) -> bool {
    c == ';' || c == '\n'
}

/// What one piece of the list of openers adds to the menu: itself without
/// the white space around it, unless nothing is left of it.
pub open spec fn entry(piece: Seq<char>) -> Seq<Seq<char>> {
    if trimmed(piece).len() > 0 {
        seq![trimmed(piece)]
    } else {
        Seq::empty()
    }
}

/// The entries of `list` from the piece that starts at `start`, where the
/// characters before `i` are known to belong to that piece.
pub open spec fn entries_scan(list: Seq<char>, start: int, i: int) -> Seq<Seq<char>>
    decreases list.len() - i,
{
    if i < 0 || i >= list.len() {
        entry(list.subrange(start, list.len() as int))
    } else if is_separator(list[i]) {
        entry(list.subrange(start, i)) + entries_scan(list, i + 1, i + 1)
    } else {
        entries_scan(list, start, i + 1)
    }
}

/// The entries of a list of openers: its pieces between semicolons and line
/// breaks, each without the white space around it, the empty ones left out.
pub open spec fn opener_entries(list: Seq<char>) -> Seq<Seq<char>> {
    entries_scan(list, 0, 0)
}

/// Whether one of `items` holds `needle` as a substring.
pub open spec fn any_holds(items: Seq<Seq<char>>, needle: Seq<char>) -> bool {
    exists|k: int| 0 <= k < items.len() && occurs_in(#[trigger] items[k], needle)
}

/// `items`, with `suggestion` added at the end unless one of them holds
/// `needle`.
pub open spec fn with_suggestion(
    items: Seq<Seq<char>>,
    needle: Seq<char>,
    suggestion: Seq<char>,
) -> Seq<Seq<char>> {
    if any_holds(items, needle) {
        items
    } else {
        items.push(suggestion)
    }
}

/// The menu of openers for a path whose extension is `ext`: the platform's
/// default, the opener registered for the extension, the entries of the
/// list of openers, and two suggestions, each unless an entry before it
/// holds its key word.
pub open spec fn opener_menu(ext: Option<Seq<char>>, vars: Seq<(Seq<char>, Seq<char>)>) -> Seq<
    Seq<char>,
> {
    let first = seq![SYSTEM_DEFAULT@];
    let second = match extension_override(ext, vars) {
        Some(spec) => first.push(spec),
        None => first,
    };
    let third = match lookup(vars, OPENERS_VAR@) {
        Some(list) => second + opener_entries(list),
        None => second,
    };
    with_suggestion(
        with_suggestion(third, "code"@, "code -g"@),
        "open -a"@,
        "open -a \"Visual Studio Code\""@,
    )
}

/// Appends the entries of `list` to `out`.
fn push_entries(out: &mut Vec<String>, list: &str)
    ensures
        final(out).deep_view() == old(out).deep_view() + opener_entries(list@),
{
    let chars = to_chars(list);
    let ghost before = out.deep_view();
    let mut start: usize = 0;
    let mut i: usize = 0;
    assert(out.deep_view() + opener_entries(list@) =~= before + entries_scan(list@, 0, 0));
    while i < chars.len()
        invariant
            start <= i <= chars@.len(),
            chars@ == list@,
            before + opener_entries(list@) == out.deep_view() + entries_scan(
                list@,
                start as int,
                i as int,
            ),
        decreases chars.len() - i,
    {
        if chars[i] == ';' || chars[i] == '\n' {
            push_entry(out, chars.as_slice(), start, i);
            start = i + 1;
        }
        i += 1;
    }
    push_entry(out, chars.as_slice(), start, chars.len());
}

/// Appends to `out` what the piece `chars[from..to]` adds to the menu.
fn push_entry(out: &mut Vec<String>, chars: &[char], from: usize, to: usize)
    requires
        from <= to <= chars@.len(),
    ensures
        final(out).deep_view() == old(out).deep_view() + entry(
            chars@.subrange(from as int, to as int),
        ),
{
    let ghost before = out.deep_view();
    let (a, b) = trim_window(chars, from, to);
    if a < b {
        out.push(from_chars(chars, a, b));
        assert(out.deep_view() =~= before + seq![chars@.subrange(a as int, b as int)]);
    } else {
        assert(out.deep_view() =~= before + Seq::<Seq<char>>::empty());
    }
}

/// Whether one of `items` holds `needle` as a substring.
fn any_contains(items: &Vec<String>, needle: &str) -> (r: bool)
    ensures
        r == any_holds(items.deep_view(), needle@),
{
    let pattern = to_chars(needle);
    let mut k: usize = 0;
    while k < items.len()
        invariant
            k <= items@.len(),
            pattern@ == needle@,
            forall|j: int| 0 <= j < k ==> !occurs_in(#[trigger] items.deep_view()[j], needle@),
        decreases items.len() - k,
    {
        let item = to_chars(items[k].as_str());
        if contains(item.as_slice(), pattern.as_slice()) {
            assert(occurs_in(items.deep_view()[k as int], needle@));
            return true;
        }
        k += 1;
    }
    false
}

/// Appends `suggestion` to `out` unless one of its entries holds `needle`.
fn suggest(out: &mut Vec<String>, needle: &str, suggestion: &str)
    ensures
        final(out).deep_view() == with_suggestion(old(out).deep_view(), needle@, suggestion@),
{
    if !any_contains(out, needle) {
        let ghost before = out.deep_view();
        out.push(suggestion.to_owned());
        assert(out.deep_view() =~= before.push(suggestion@));
    }
}

/// Builds the menu of openers for a path whose extension is `ext`. Its
/// first entry is always the platform's default.
pub fn build_openers_for_extension(ext: Option<&str>, env: &Environment) -> (menu: Vec<String>)
    ensures
        menu.deep_view() == opener_menu(ext.deep_view(), env@),
        menu@.len() > 0,
        menu@[0]@ == SYSTEM_DEFAULT@,
{
    let mut out: Vec<String> = Vec::new();
    out.push(SYSTEM_DEFAULT.to_owned());
    assert(out.deep_view() =~= seq![SYSTEM_DEFAULT@]);
    match find_extension_override(ext, env) {
        Some(spec) => {
            out.push(spec);
            assert(out.deep_view() =~= seq![SYSTEM_DEFAULT@].push(spec@));
        },
        None => {},
    }
    match env.get(OPENERS_VAR) {
        Some(list) => {
            push_entries(&mut out, list.as_str());
        },
        None => {},
    }
    suggest(&mut out, "code", "code -g");
    suggest(&mut out, "open -a", "open -a \"Visual Studio Code\"");
    proof {
        lemma_menu_starts_with_default(ext.deep_view(), env@);
    }
    out
}

/// The menu of openers begins with the platform's default, whatever the
/// extension and the environment.
pub proof fn lemma_menu_starts_with_default(
    ext: Option<Seq<char>>,
    vars: Seq<(Seq<char>, Seq<char>)>,
)
    ensures
        opener_menu(ext, vars).len() > 0,
        opener_menu(ext, vars)[0] == SYSTEM_DEFAULT@,
{
}

/// Builds the menu of openers for `path`.
///
/// The menu is that of [`build_openers_for_extension`] for the extension
/// that the standard library finds in the path.
pub fn build_openers_for(path: &str, env: &Environment) -> (menu: Vec<String>)
    ensures
        exists|ext: Option<Seq<char>>|
            {
                &&& ext matches Some(e) ==> may_be_extension(path@, e)
                &&& #[trigger] opener_menu(ext, env@) == menu.deep_view()
            },
        menu@.len() > 0,
        menu@[0]@ == SYSTEM_DEFAULT@,
{
    let found = path_extension(path);
    let ext: Option<&str> = match &found {
        Some(e) => Some(e.as_str()),
        None => None,
    };
    let menu = build_openers_for_extension(ext, env);
    assert(opener_menu(ext.deep_view(), env@) == menu.deep_view());
    menu
}

} // verus!
