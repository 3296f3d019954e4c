//! The configuration grammar.
//!
//! A configuration is line-oriented, brace-delimited text with `#` line
//! comments.  Top-level blocks are `settings { ... }` (one key, optional
//! value, per line) and `workflow <name> { ... }` (one step per line: a step
//! type followed by arguments).  `spec_parse` is the exact specification of
//! the parser: lines are comment-stripped, tokenized, then folded through a
//! small state machine, and `parse` returns precisely its result.

pub mod tokens;

use vstd::prelude::*;
use crate::collections::StrMap;
use crate::definitions::WorkflowDefinition;
use crate::definitions::WorkflowStepDefinition;
use crate::definitions::WorkflowStepType;
use crate::strutil::opt_view;
use crate::strutil::spec_lower;
use crate::config::tokens::Token;
use crate::config::tokens::TokenModel;
use crate::config::tokens::clampi;
use crate::config::tokens::find_char;
use crate::config::tokens::spec_tokenize;

verus! {

/// Configuration of the system: the settings and the workflows to run.
#[derive(Debug)]
pub struct MmidsConfig {
    pub settings: StrMap<Option<String>>,
    pub workflows: StrMap<WorkflowDefinition>,
}

/// Errors a configuration text can provoke, each carrying the 1-based line
/// it was found on.
#[derive(Debug)]
pub enum ConfigParseError {
    /// The text does not follow the grammar (bad line shape, unterminated
    /// quote, a value missing after `=`, or an unclosed block).
    InvalidSyntax { line: usize },
    DuplicateWorkflowName { name: String },
    InvalidNodeName { name: String, line: usize },
    ArgumentsSpecifiedOnSettingNode { line: usize },
    TooManySettingArguments { line: usize },
    InvalidSettingArgumentFormat { line: usize },
    TooManyWorkflowArguments { line: usize },
    NoNameOnWorkflow { line: usize },
    InvalidWorkflowName { line: usize, name: String },
}

/// Mathematical mirror of one step definition.
pub struct StepModel {
    pub step_type: Seq<char>,
    pub parameters: Map<Seq<char>, Option<Seq<char>>>,
}

/// Mathematical mirror of one workflow.
pub struct WorkflowModel {
    pub name: Seq<char>,
    pub steps: Seq<StepModel>,
}

/// Mathematical mirror of a parsed configuration.
pub struct ConfigModel {
    pub settings: Map<Seq<char>, Option<Seq<char>>>,
    pub workflows: Map<Seq<char>, WorkflowModel>,
}

/// Mathematical mirror of `ConfigParseError`.
pub enum ParseErrorModel {
    InvalidSyntax { line: int },
    DuplicateWorkflowName { name: Seq<char> },
    InvalidNodeName { name: Seq<char>, line: int },
    ArgumentsSpecifiedOnSettingNode { line: int },
    TooManySettingArguments { line: int },
    InvalidSettingArgumentFormat { line: int },
    TooManyWorkflowArguments { line: int },
    NoNameOnWorkflow { line: int },
    InvalidWorkflowName { line: int, name: Seq<char> },
}

/// Where the line machine stands.
pub enum ModeModel {
    Top,
    InSettings,
    InWorkflow { name: Option<Seq<char>>, steps: Seq<StepModel>, header_line: int },
}

/// The whole machine state: current mode plus what has been built.
pub struct MachineModel {
    pub mode: ModeModel,
    pub config: ConfigModel,
}

/// The line up to (not including) the first `#`.
pub open spec fn strip_comment(s: Seq<char>) -> Seq<char> {
    match find_char(s, '#') {
        None => s,
        Some(i) => s.take(i),
    }
}

/// The text split at every newline, as `str::split('\n')` does it.
pub open spec fn spec_lines(s: Seq<char>) -> Seq<Seq<char>>
    decreases s.len(),
{
    match find_char(s, '\n') {
        None => seq![s],
        Some(i) => seq![s.take(i)] + spec_lines(s.skip(clampi(i + 1, 1, s.len() as int))),
    }
}

/// The lines of the text, comments removed.
pub open spec fn clean_lines(s: Seq<char>) -> Seq<Seq<char>> {
    spec_lines(s).map_values(|l: Seq<char>| strip_comment(l))
}

/// Tokenize every line; `Err` carries the first offending line number,
/// counting from `base`.
pub open spec fn spec_tokenize_all(lines: Seq<Seq<char>>, base: int) -> Result<
    Seq<Seq<TokenModel>>,
    int,
>
    decreases lines.len(),
{
    if lines.len() == 0 {
        Ok(Seq::empty())
    } else {
        match spec_tokenize(lines[0]) {
            None => Err(base),
            Some(ts) => match spec_tokenize_all(lines.drop_first(), base + 1) {
                Err(l) => Err(l),
                Ok(r) => Ok(seq![ts] + r),
            },
        }
    }
}

pub open spec fn is_arg(t: TokenModel) -> bool {
    match t {
        TokenModel::Flag(_) => true,
        TokenModel::Quoted(_) => true,
        TokenModel::KeyValue { .. } => true,
        _ => false,
    }
}

pub open spec fn all_args(ts: Seq<TokenModel>) -> bool {
    forall|i: int| 0 <= i < ts.len() ==> is_arg(#[trigger] ts[i])
}

/// The key an argument contributes: the word itself for a flag, the quoted
/// text for a quoted argument, the key for `key=value`.
pub open spec fn arg_key(t: TokenModel) -> Seq<char> {
    match t {
        TokenModel::Flag(w) => w,
        TokenModel::Quoted(q) => q,
        TokenModel::KeyValue { key, .. } => key,
        _ => Seq::empty(),
    }
}

/// The value an argument contributes: `None` but for `key=value`.
pub open spec fn arg_val(t: TokenModel) -> Option<Seq<char>> {
    match t {
        TokenModel::KeyValue { value, .. } => Some(value),
        _ => None,
    }
}

/// The argument map of a child node: later duplicates win.
pub open spec fn args_map(ts: Seq<TokenModel>) -> Map<Seq<char>, Option<Seq<char>>>
    decreases ts.len(),
{
    if ts.len() == 0 {
        Map::empty()
    } else {
        args_map(ts.drop_last()).insert(arg_key(ts.last()), arg_val(ts.last()))
    }
}

/// Read a workflow header's arguments into the workflow's name.
pub open spec fn spec_workflow_header(
    args: Seq<TokenModel>,
    line: int,
    acc: Option<Seq<char>>,
) -> Result<Option<Seq<char>>, ParseErrorModel>
    decreases args.len(),
{
    if args.len() == 0 {
        Ok(acc)
    } else if acc is Some {
        Err(ParseErrorModel::TooManyWorkflowArguments { line })
    } else {
        match args[0] {
            TokenModel::Flag(w) => spec_workflow_header(args.drop_first(), line, Some(w)),
            TokenModel::Quoted(q) => spec_workflow_header(args.drop_first(), line, Some(q)),
            TokenModel::KeyValue { raw, .. } => Err(
                ParseErrorModel::InvalidWorkflowName { line, name: raw },
            ),
            _ => Err(ParseErrorModel::InvalidSyntax { line }),
        }
    }
}

/// One step of the line machine.
pub open spec fn spec_line_step(st: MachineModel, toks: Seq<TokenModel>, line: int) -> Result<
    MachineModel,
    ParseErrorModel,
> {
    match st.mode {
        ModeModel::Top => {
            if toks.len() == 0 {
                Ok(st)
            } else if !(toks.len() >= 2 && toks[0] is Flag && toks.last() is OpenBrace
                && all_args(toks.subrange(1, toks.len() - 1))) {
                Err(ParseErrorModel::InvalidSyntax { line })
            } else {
                let name = toks[0]->Flag_0;
                let hdr = toks.subrange(1, toks.len() - 1);
                if spec_lower(name) == "settings"@ {
                    if hdr.len() > 0 {
                        Err(ParseErrorModel::ArgumentsSpecifiedOnSettingNode { line })
                    } else {
                        Ok(MachineModel { mode: ModeModel::InSettings, config: st.config })
                    }
                } else if spec_lower(name) == "workflow"@ {
                    match spec_workflow_header(hdr, line, None) {
                        Err(e) => Err(e),
                        Ok(n) => Ok(
                            MachineModel {
                                mode: ModeModel::InWorkflow {
                                    name: n,
                                    steps: Seq::empty(),
                                    header_line: line,
                                },
                                config: st.config,
                            },
                        ),
                    }
                } else {
                    Err(ParseErrorModel::InvalidNodeName { name, line })
                }
            }
        },
        ModeModel::InSettings => {
            if toks.len() == 0 {
                Ok(st)
            } else if toks.len() == 1 && toks[0] is CloseBrace {
                Ok(MachineModel { mode: ModeModel::Top, config: st.config })
            } else if toks[0] is KeyValue {
                Err(ParseErrorModel::InvalidSettingArgumentFormat { line })
            } else if toks[0] is Flag && all_args(toks.drop_first()) {
                let name = toks[0]->Flag_0;
                let m = args_map(toks.drop_first());
                if m.dom().len() > 1 {
                    Err(ParseErrorModel::TooManySettingArguments { line })
                } else if m.dom().len() == 1 {
                    let k = m.dom().choose();
                    if m[k] is Some {
                        Err(ParseErrorModel::InvalidSettingArgumentFormat { line })
                    } else {
                        Ok(
                            MachineModel {
                                mode: st.mode,
                                config: ConfigModel {
                                    settings: st.config.settings.insert(name, Some(k)),
                                    workflows: st.config.workflows,
                                },
                            },
                        )
                    }
                } else {
                    Ok(
                        MachineModel {
                            mode: st.mode,
                            config: ConfigModel {
                                settings: st.config.settings.insert(name, None),
                                workflows: st.config.workflows,
                            },
                        },
                    )
                }
            } else {
                Err(ParseErrorModel::InvalidSyntax { line })
            }
        },
        ModeModel::InWorkflow { name, steps, header_line } => {
            if toks.len() == 0 {
                Ok(st)
            } else if toks.len() == 1 && toks[0] is CloseBrace {
                match name {
                    None => Err(ParseErrorModel::NoNameOnWorkflow { line: header_line }),
                    Some(n) => {
                        if st.config.workflows.contains_key(n) {
                            Err(ParseErrorModel::DuplicateWorkflowName { name: n })
                        } else {
                            Ok(
                                MachineModel {
                                    mode: ModeModel::Top,
                                    config: ConfigModel {
                                        settings: st.config.settings,
                                        workflows: st.config.workflows.insert(
                                            n,
                                            WorkflowModel { name: n, steps },
                                        ),
                                    },
                                },
                            )
                        }
                    },
                }
            } else if toks[0] is Flag && all_args(toks.drop_first()) {
                let step = StepModel {
                    step_type: toks[0]->Flag_0,
                    parameters: args_map(toks.drop_first()),
                };
                Ok(
                    MachineModel {
                        mode: ModeModel::InWorkflow {
                            name,
                            steps: steps.push(step),
                            header_line,
                        },
                        config: st.config,
                    },
                )
            } else {
                Err(ParseErrorModel::InvalidSyntax { line })
            }
        },
    }
}

/// Fold the machine over the token lines, the first line numbered `base`.
pub open spec fn spec_run_lines(
    tls: Seq<Seq<TokenModel>>,
    base: int,
    st: MachineModel,
) -> Result<MachineModel, ParseErrorModel>
    decreases tls.len(),
{
    if tls.len() == 0 {
        Ok(st)
    } else {
        match spec_line_step(st, tls[0], base) {
            Err(e) => Err(e),
            Ok(st2) => spec_run_lines(tls.drop_first(), base + 1, st2),
        }
    }
}

pub open spec fn initial_machine() -> MachineModel {
    MachineModel {
        mode: ModeModel::Top,
        config: ConfigModel { settings: Map::empty(), workflows: Map::empty() },
    }
}

/// What parsing a configuration text yields.
pub open spec fn spec_parse(content: Seq<char>) -> Result<ConfigModel, ParseErrorModel> {
    let lines = clean_lines(content);
    match spec_tokenize_all(lines, 1) {
        Err(l) => Err(ParseErrorModel::InvalidSyntax { line: l }),
        Ok(tls) => match spec_run_lines(tls, 1, initial_machine()) {
            Err(e) => Err(e),
            Ok(m) => match m.mode {
                ModeModel::Top => Ok(m.config),
                _ => Err(ParseErrorModel::InvalidSyntax { line: lines.len() as int }),
            },
        },
    }
}

/// The model of an optional-string map built by the parser.
pub open spec fn omap_view(m: Map<Seq<char>, Option<String>>) -> Map<Seq<char>, Option<Seq<char>>> {
    Map::new(|k: Seq<char>| m.dom().contains(k), |k: Seq<char>| opt_view(m[k]))
}

pub open spec fn step_model(s: WorkflowStepDefinition) -> StepModel {
    StepModel { step_type: s.step_type.0@, parameters: omap_view(s.parameters@) }
}

pub open spec fn workflow_model(w: WorkflowDefinition) -> WorkflowModel {
    WorkflowModel {
        name: w.name@,
        steps: w.steps@.map_values(|s: WorkflowStepDefinition| step_model(s)),
    }
}

/// The model a parsed configuration denotes.
pub open spec fn config_model(c: &MmidsConfig) -> ConfigModel {
    ConfigModel {
        settings: omap_view(c.settings@),
        workflows: Map::new(
            |k: Seq<char>| c.workflows@.dom().contains(k),
            |k: Seq<char>| workflow_model(c.workflows@[k]),
        ),
    }
}

/// The model of a parse error.
pub open spec fn error_model(e: &ConfigParseError) -> ParseErrorModel {
    match e {
        ConfigParseError::InvalidSyntax { line } => ParseErrorModel::InvalidSyntax {
            line: *line as int,
        },
        ConfigParseError::DuplicateWorkflowName { name } => ParseErrorModel::DuplicateWorkflowName {
            name: name@,
        },
        ConfigParseError::InvalidNodeName { name, line } => ParseErrorModel::InvalidNodeName {
            name: name@,
            line: *line as int,
        },
        ConfigParseError::ArgumentsSpecifiedOnSettingNode {
            line,
        } => ParseErrorModel::ArgumentsSpecifiedOnSettingNode { line: *line as int },
        ConfigParseError::TooManySettingArguments { line } => ParseErrorModel::TooManySettingArguments {
            line: *line as int,
        },
        ConfigParseError::InvalidSettingArgumentFormat {
            line,
        } => ParseErrorModel::InvalidSettingArgumentFormat { line: *line as int },
        ConfigParseError::TooManyWorkflowArguments { line } => ParseErrorModel::TooManyWorkflowArguments {
            line: *line as int,
        },
        ConfigParseError::NoNameOnWorkflow { line } => ParseErrorModel::NoNameOnWorkflow {
            line: *line as int,
        },
        ConfigParseError::InvalidWorkflowName { line, name } => ParseErrorModel::InvalidWorkflowName {
            line: *line as int,
            name: name@,
        },
    }
}

impl MmidsConfig {
    /// Well-formedness of a parsed configuration: the maps are well formed,
    /// every workflow is stored under its own name, and every step's
    /// parameter map is well formed.
    pub open spec fn wf(&self) -> bool {
        &&& self.settings.wf()
        &&& self.workflows.wf()
        &&& forall|k: Seq<char>|
            self.workflows@.dom().contains(k) ==> (#[trigger] self.workflows@[k]).name@ == k
        &&& forall|k: Seq<char>|
            self.workflows@.dom().contains(k) ==> (#[trigger] self.workflows@[k]).wf()
    }
}



/// Every `settings` child becomes exactly one entry: a child with one
/// bareword argument maps the child's key to that word, a bare child maps
/// it to nothing, and a `key=value` child is rejected as an invalid
/// setting argument.
pub proof fn lemma_settings_child(
    st: MachineModel,
    name: Seq<char>,
    value: Seq<char>,
    raw: Seq<char>,
    line: int,
)
    requires
        st.mode is InSettings,
    ensures
        spec_line_step(st, seq![TokenModel::Flag(name), TokenModel::Flag(value)], line)
            == Ok::<MachineModel, ParseErrorModel>(
            MachineModel {
                mode: st.mode,
                config: ConfigModel {
                    settings: st.config.settings.insert(name, Some(value)),
                    workflows: st.config.workflows,
                },
            },
        ),
        spec_line_step(st, seq![TokenModel::Flag(name)], line) == Ok::<
            MachineModel,
            ParseErrorModel,
        >(
            MachineModel {
                mode: st.mode,
                config: ConfigModel {
                    settings: st.config.settings.insert(name, None),
                    workflows: st.config.workflows,
                },
            },
        ),
        spec_line_step(st, seq![TokenModel::KeyValue { key: name, value, raw }], line) == Err::<
            MachineModel,
            ParseErrorModel,
        >(ParseErrorModel::InvalidSettingArgumentFormat { line }),
    {
        let one = seq![TokenModel::Flag(name), TokenModel::Flag(value)];
        let alone = seq![TokenModel::Flag(name)];
        assert(one.drop_first() =~= seq![TokenModel::Flag(value)]);
        assert(alone.drop_first() =~= Seq::<TokenModel>::empty());
        assert(all_args(one.drop_first()));
        assert(all_args(alone.drop_first()));
        let m = args_map(one.drop_first());
        assert(one.drop_first().drop_last() =~= Seq::<TokenModel>::empty());
        assert(m == Map::<Seq<char>, Option<Seq<char>>>::empty().insert(value, None));
        assert(m.dom() =~= Set::<Seq<char>>::empty().insert(value));
        assert(m.dom().len() == 1) by {
            assert(Set::<Seq<char>>::empty().len() == 0);
            assert(!Set::<Seq<char>>::empty().contains(value));
        }
        lemma_singleton_choose(m.dom(), value);
        assert(m[value] is None);
        assert(args_map(alone.drop_first()).dom() =~= Set::<Seq<char>>::empty());
    }

/// Each child line of a `workflow` block appends exactly one step, holding
/// the child's name as the step type and its arguments as the parameters:
/// the parsed step order is the textual order.
pub proof fn lemma_workflow_child_appends(st: MachineModel, toks: Seq<TokenModel>, line: int)
    requires
        st.mode is InWorkflow,
        toks.len() >= 1,
        toks[0] is Flag,
        all_args(toks.drop_first()),
    ensures
        spec_line_step(st, toks, line) matches Ok(st2) && st2.config == st.config && (
        st2.mode matches ModeModel::InWorkflow { name, steps, header_line } && name
            == st.mode->InWorkflow_name && header_line == st.mode->InWorkflow_header_line && steps
            == st.mode->InWorkflow_steps.push(
            StepModel { step_type: toks[0]->Flag_0, parameters: args_map(toks.drop_first()) },
        )),
{
}

/// Duplicate workflow names fail with the duplicate's name while the first
/// occurrence stays; a fresh name enters the configuration with its steps.
pub proof fn lemma_workflow_close(
    st: MachineModel,
    n: Seq<char>,
    steps: Seq<StepModel>,
    header_line: int,
    line: int,
)
    requires
        st.mode == (ModeModel::InWorkflow { name: Some(n), steps, header_line }),
    ensures
        st.config.workflows.contains_key(n) ==> spec_line_step(
            st,
            seq![TokenModel::CloseBrace],
            line,
        ) == Err::<MachineModel, ParseErrorModel>(
            ParseErrorModel::DuplicateWorkflowName { name: n },
        ),
        !st.config.workflows.contains_key(n) ==> spec_line_step(
            st,
            seq![TokenModel::CloseBrace],
            line,
        ) == Ok::<MachineModel, ParseErrorModel>(
            MachineModel {
                mode: ModeModel::Top,
                config: ConfigModel {
                    settings: st.config.settings,
                    workflows: st.config.workflows.insert(n, WorkflowModel { name: n, steps }),
                },
            },
        ),
{
}

/// Comment stripping leaves no `#` in any line the tokenizer reads, so no
/// parsed string can carry comment text: every token's characters come
/// from a cleaned line.
pub proof fn lemma_clean_lines_have_no_comments(content: Seq<char>)
    ensures
        forall|i: int, j: int|
            0 <= i < clean_lines(content).len() && 0 <= j < clean_lines(content)[i].len()
                ==> #[trigger] clean_lines(content)[i][j] != '#',
{
    assert forall|i: int, j: int|
        0 <= i < clean_lines(content).len() && 0 <= j < clean_lines(content)[i].len()
        implies #[trigger] clean_lines(content)[i][j] != '#' by {
        let raw = spec_lines(content)[i];
        assert(clean_lines(content)[i] == strip_comment(raw));
        crate::config::tokens::lemma_find_char(raw, '#');
        match find_char(raw, '#') {
            None => {
                assert(strip_comment(raw) == raw);
            },
            Some(k) => {
                assert(strip_comment(raw) == raw.take(k));
                assert(raw.take(k)[j] == raw[j]);
            },
        }
    }
}

/// The executable mirror of `ModeModel`.
enum ParserMode {
    Top,
    InSettings,
    InWorkflow { name: Option<String>, steps: Vec<WorkflowStepDefinition>, header_line: usize },
}

spec fn pmode_wf(m: &ParserMode) -> bool {
    match m {
        ParserMode::InWorkflow { steps, .. } => forall|i: int|
            0 <= i < steps@.len() ==> (#[trigger] steps@[i]).wf(),
        _ => true,
    }
}

spec fn pmode_model(m: &ParserMode) -> ModeModel {
    match m {
        ParserMode::Top => ModeModel::Top,
        ParserMode::InSettings => ModeModel::InSettings,
        ParserMode::InWorkflow { name, steps, header_line } => ModeModel::InWorkflow {
            name: match name {
                Some(n) => Some(n@),
                None => None,
            },
            steps: steps@.map_values(|s: WorkflowStepDefinition| step_model(s)),
            header_line: *header_line as int,
        },
    }
}

spec fn machine_of(m: &ParserMode, c: &MmidsConfig) -> MachineModel {
    MachineModel { mode: pmode_model(m), config: config_model(c) }
}

/// Copy of `v[a..b]`.
fn copy_range(v: &Vec<char>, a: usize, b: usize) -> (r: Vec<char>)
    requires
        a <= b <= v@.len(),
    ensures
        r@ == v@.subrange(a as int, b as int),
{
    let mut t: Vec<char> = Vec::new();
    let mut i: usize = a;
    while i < b
        invariant
            a <= i <= b <= v@.len(),
            t@ == v@.subrange(a as int, i as int),
        decreases b - i,
    {
        t.push(v[i]);
        proof {
            assert(t@ =~= v@.subrange(a as int, i + 1));
        }
        i += 1;
    }
    t
}

/// Cut the text into lines and strip each line's comment.
fn split_clean_lines(v: &Vec<char>) -> (r: Vec<Vec<char>>)
    ensures
        r@.map_values(|l: Vec<char>| l@) == clean_lines(v@),
        r@.len() == clean_lines(v@).len(),
{
    let n = v.len();
    let mut lines: Vec<Vec<char>> = Vec::new();
    let mut pos: usize = 0;
    let mut finished = false;
    proof {
        assert(v@.skip(0) =~= v@);
    }
    while !finished
        invariant
            pos <= n,
            n == v@.len(),
            !finished ==> clean_lines(v@) =~= lines@.map_values(|l: Vec<char>| l@) + spec_lines(
                v@.skip(pos as int),
            ).map_values(|l: Seq<char>| strip_comment(l)),
            finished ==> clean_lines(v@) =~= lines@.map_values(|l: Vec<char>| l@),
        decreases n - pos + (if finished { 0int } else { 1int }),
    {
        let ghost s = v@.skip(pos as int);
        let ghost done = lines@.map_values(|l: Vec<char>| l@);
        match crate::config::tokens::scan_for(v, pos, '\n') {
            Some(i) => {
                let raw = copy_range(v, pos, i);
                let cleaned = strip_line(raw);
                lines.push(cleaned);
                proof {
                    assert(find_char(s, '\n') == Some(i - pos));
                    assert(clampi(i - pos + 1, 1, s.len() as int) == i - pos + 1);
                    assert(s.take(i - pos) =~= v@.subrange(pos as int, i as int));
                    assert(s.skip(i - pos + 1) =~= v@.skip(i + 1));
                    assert(spec_lines(s) == seq![s.take(i - pos)] + spec_lines(v@.skip(i + 1)));
                    assert(lines@.map_values(|l: Vec<char>| l@) =~= done.push(
                        strip_comment(s.take(i - pos)),
                    ));
                    assert(spec_lines(s).map_values(|l: Seq<char>| strip_comment(l)) =~= seq![
                        strip_comment(s.take(i - pos)),
                    ] + spec_lines(v@.skip(i + 1)).map_values(|l: Seq<char>| strip_comment(l)));
                    assert(clean_lines(v@) =~= lines@.map_values(|l: Vec<char>| l@) + spec_lines(
                        v@.skip(i + 1),
                    ).map_values(|l: Seq<char>| strip_comment(l)));
                }
                pos = i + 1;
            },
            None => {
                let raw = copy_range(v, pos, n);
                let cleaned = strip_line(raw);
                lines.push(cleaned);
                finished = true;
                proof {
                    assert(find_char(s, '\n') is None);
                    assert(s =~= v@.subrange(pos as int, n as int));
                    assert(spec_lines(s) == seq![s]);
                    assert(spec_lines(s).map_values(|l: Seq<char>| strip_comment(l)) =~= seq![
                        strip_comment(s),
                    ]);
                    assert(lines@.map_values(|l: Vec<char>| l@) =~= done.push(strip_comment(s)));
                    assert(clean_lines(v@) =~= lines@.map_values(|l: Vec<char>| l@));
                }
            },
        }
    }
    lines
}

/// Remove the comment (`#` to end of line) from one line.
fn strip_line(line: Vec<char>) -> (r: Vec<char>)
    ensures
        r@ == strip_comment(line@),
{
    let mut line = line;
    match crate::config::tokens::scan_for(&line, 0, '#') {
        Some(i) => {
            proof {
                assert(line@.skip(0) =~= line@);
            }
            line.truncate(i);
            line
        },
        None => {
            proof {
                assert(line@.skip(0) =~= line@);
            }
            line
        },
    }
}

/// Tokenize every cleaned line; `Err` is the first bad 1-based line number.
fn tokenize_all(clean: &Vec<Vec<char>>) -> (r: Result<Vec<Vec<Token>>, usize>)
    ensures
        ({
            let lm = clean@.map_values(|l: Vec<char>| l@);
            match r {
                Ok(ts) => spec_tokenize_all(lm, 1) == Ok::<Seq<Seq<TokenModel>>, int>(
                    ts@.map_values(|t: Vec<Token>| t@.map_values(|tok: Token| tok@)),
                ),
                Err(l) => spec_tokenize_all(lm, 1) == Err::<Seq<Seq<TokenModel>>, int>(l as int),
            }
        }),
{
    let ghost lm = clean@.map_values(|l: Vec<char>| l@);
    let n = clean.len();
    let mut out: Vec<Vec<Token>> = Vec::new();
    let mut i: usize = 0;
    proof {
        assert(lm.skip(0) =~= lm);
    }
    while i < n
        invariant
            i <= n,
            n == clean@.len(),
            lm == clean@.map_values(|l: Vec<char>| l@),
            out@.len() == i,
            spec_tokenize_all(lm, 1) == spec_tokenize_all_cont(
                out@.map_values(|t: Vec<Token>| t@.map_values(|tok: Token| tok@)),
                spec_tokenize_all(lm.skip(i as int), i + 1),
            ),
        decreases n - i,
    {
        let ghost done = out@.map_values(|t: Vec<Token>| t@.map_values(|tok: Token| tok@));
        let ghost rest = lm.skip(i as int);
        proof {
            assert(rest[0] == lm[i as int]);
            assert(rest.drop_first() =~= lm.skip(i + 1));
            assert(lm[i as int] == clean@[i as int]@);
        }
        match crate::config::tokens::tokenize_line(&clean[i]) {
            Err(_) => {
                proof {
                    assert(spec_tokenize_all(rest, i + 1) == Err::<Seq<Seq<TokenModel>>, int>(
                        i + 1,
                    ));
                }
                return Err(i + 1);
            },
            Ok(ts) => {
                out.push(ts);
                proof {
                    let tsm = ts@.map_values(|tok: Token| tok@);
                    assert(spec_tokenize(rest[0]) == Some(tsm));
                    assert(spec_tokenize_all(rest, i + 1) == (match spec_tokenize_all(
                        lm.skip(i + 1),
                        i + 2,
                    ) {
                        Err(l) => Err::<Seq<Seq<TokenModel>>, int>(l),
                        Ok(r2) => Ok::<Seq<Seq<TokenModel>>, int>(seq![tsm] + r2),
                    }));
                    assert(out@.map_values(|t: Vec<Token>| t@.map_values(|tok: Token| tok@))
                        =~= done.push(tsm));
                    lemma_tokenize_all_cont_push(done, tsm, spec_tokenize_all(lm.skip(i + 1), i + 2));
                }
                i += 1;
            },
        }
    }
    proof {
        assert(lm.skip(n as int) =~= Seq::<Seq<char>>::empty());
        assert(spec_tokenize_all(lm.skip(n as int), n + 1) == Ok::<Seq<Seq<TokenModel>>, int>(
            Seq::empty(),
        ));
        let done = out@.map_values(|t: Vec<Token>| t@.map_values(|tok: Token| tok@));
        assert(done + Seq::<Seq<TokenModel>>::empty() =~= done);
    }
    Ok(out)
}

spec fn spec_tokenize_all_cont(
    done: Seq<Seq<TokenModel>>,
    r: Result<Seq<Seq<TokenModel>>, int>,
) -> Result<Seq<Seq<TokenModel>>, int> {
    match r {
        Err(l) => Err(l),
        Ok(rest) => Ok(done + rest),
    }
}

proof fn lemma_tokenize_all_cont_push(
    done: Seq<Seq<TokenModel>>,
    ts: Seq<TokenModel>,
    r: Result<Seq<Seq<TokenModel>>, int>,
)
    ensures
        spec_tokenize_all_cont(done, spec_tokenize_all_cont(seq![ts], r)) == spec_tokenize_all_cont(
            done.push(ts),
            r,
        ),
{
    match r {
        Err(_) => {},
        Ok(rest) => {
            assert(done + (seq![ts] + rest) =~= done.push(ts) + rest);
        },
    }
}

/// Read the argument tokens `toks[from..to]` into a parameter map, later
/// duplicates winning.  `None` when a brace stands among them.
fn read_args(toks: &Vec<Token>, from: usize, to: usize) -> (r: Option<StrMap<Option<String>>>)
    requires
        from <= to <= toks@.len(),
    ensures
        ({
            let slice = toks@.map_values(|t: Token| t@).subrange(from as int, to as int);
            match r {
                Some(m) => all_args(slice) && m.wf() && omap_view(m@) == args_map(slice),
                None => !all_args(slice),
            }
        }),
{
    let ghost slice = toks@.map_values(|t: Token| t@).subrange(from as int, to as int);
    let mut m: StrMap<Option<String>> = StrMap::new();
    proof {
        assert(slice.take(0) =~= Seq::<TokenModel>::empty());
        assert(omap_view(m@) =~= args_map(slice.take(0)));
    }
    let mut j = from;
    while j < to
        invariant
            from <= j <= to <= toks@.len(),
            slice == toks@.map_values(|t: Token| t@).subrange(from as int, to as int),
            m.wf(),
            all_args(slice.take(j - from)),
            omap_view(m@) == args_map(slice.take(j - from)),
        decreases to - j,
    {
        let ghost pre = slice.take(j - from);
        proof {
            assert(slice[j - from] == toks@[j as int]@);
            assert(slice.take(j - from + 1).drop_last() =~= pre);
            assert(slice.take(j - from + 1).last() == slice[j - from]);
        }
        let kv: (String, Option<String>) = match &toks[j] {
            Token::Flag(w) => (w.clone(), None),
            Token::Quoted(q) => (q.clone(), None),
            Token::KeyValue { key, value, .. } => (key.clone(), Some(value.clone())),
            Token::OpenBrace => {
                proof {
                    assert(!is_arg(slice[j - from]));
                }
                return None;
            },
            Token::CloseBrace => {
                proof {
                    assert(!is_arg(slice[j - from]));
                }
                return None;
            },
        };
        proof {
            assert(kv.0@ == arg_key(slice[j - from]));
            assert(opt_view(kv.1) == arg_val(slice[j - from]));
        }
        let ghost old_m = m@;
        m.insert(kv.0, kv.1);
        proof {
            assert(omap_view(m@) =~= omap_view(old_m).insert(
                arg_key(slice[j - from]),
                arg_val(slice[j - from]),
            ));
            assert(all_args(slice.take(j - from + 1)));
        }
        j += 1;
    }
    proof {
        assert(slice.take(to - from) =~= slice);
    }
    Some(m)
}

proof fn lemma_singleton_choose(s: Set<Seq<char>>, k: Seq<char>)
    requires
        s.finite(),
        s.len() == 1,
        s.contains(k),
    ensures
        s.choose() == k,
{
    let j = s.choose();
    assert(s.contains(j));
    if j != k {
        let t = s.remove(k);
        assert(t.len() == 0);
        t.lemma_len0_is_empty();
        assert(t.contains(j));
    }
}


/// Process a top-level line.
#[verifier::rlimit(100)]
fn step_top(config: MmidsConfig, toks: &Vec<Token>, line: usize) -> (r: Result<
    (ParserMode, MmidsConfig),
    ConfigParseError,
>)
    requires
        config.wf(),
    ensures
        ({
            let st = machine_of(&ParserMode::Top, &config);
            let tm = toks@.map_values(|t: Token| t@);
            match r {
                Ok(p) => pmode_wf(&p.0) && p.1.wf() && spec_line_step(st, tm, line as int)
                    == Ok::<MachineModel, ParseErrorModel>(machine_of(&p.0, &p.1)),
                Err(e) => spec_line_step(st, tm, line as int) == Err::<
                    MachineModel,
                    ParseErrorModel,
                >(error_model(&e)),
            }
        }),
{
    let ghost st = machine_of(&ParserMode::Top, &config);
    let ghost tm = toks@.map_values(|t: Token| t@);
    let tn = toks.len();
    if tn == 0 {
        return Ok((ParserMode::Top, config));
    }
    // the line must be `name argument* {`
    let word: &String = match &toks[0] {
        Token::Flag(w) => w,
        _ => {
            return Err(ConfigParseError::InvalidSyntax { line });
        },
    };
    match &toks[tn - 1] {
        Token::OpenBrace => (),
        _ => {
            proof {
                assert(tm.last() == toks@[tn - 1]@);
            }
            return Err(ConfigParseError::InvalidSyntax { line });
        },
    }
    if tn < 2 {
        return Err(ConfigParseError::InvalidSyntax { line });
    }
    proof {
        assert(tm.len() == tn);
        assert(tm[0] == toks@[0]@);
        assert(tm.last() == toks@[tn - 1]@);
    }
    let ghost hdr = tm.subrange(1, tm.len() - 1);
    let args = match read_args(toks, 1, tn - 1) {
        None => {
            return Err(ConfigParseError::InvalidSyntax { line });
        },
        Some(m) => m,
    };
    proof {
        assert(all_args(hdr));
    }
    let wc = crate::strutil::chars_of(word.as_str());
    if crate::strutil::eq_ignore_ascii_case(&wc, "settings") {
        if tn > 2 {
            proof {
                assert(hdr.len() > 0);
            }
            return Err(ConfigParseError::ArgumentsSpecifiedOnSettingNode { line });
        }
        proof {
            assert(hdr.len() == 0);
        }
        Ok((ParserMode::InSettings, config))
    } else if crate::strutil::eq_ignore_ascii_case(&wc, "workflow") {
        // read the name from the header arguments
        let mut wname: Option<String> = None;
        let mut j: usize = 1;
        proof {
            assert(hdr.skip(0) =~= hdr);
            assert(tm[0] == TokenModel::Flag(word@));
            assert("settings"@ != "workflow"@) by {
                reveal_strlit("settings");
                reveal_strlit("workflow");
                assert("settings"@.len() == 8);
                assert("workflow"@.len() == 8);
                assert("settings"@[0] == 's');
                assert("workflow"@[0] == 'w');
            }
        }
        while j < tn - 1
            invariant
                1 <= j <= tn - 1,
                2 <= tn == toks@.len(),
                config.wf(),
                st == machine_of(&ParserMode::Top, &config),
                tm == toks@.map_values(|t: Token| t@),
                hdr == tm.subrange(1, tm.len() - 1),
                tm[0] == TokenModel::Flag(word@),
                tm.last() is OpenBrace,
                all_args(hdr),
                spec_lower(word@) == "workflow"@,
                spec_lower(word@) != "settings"@,
                spec_workflow_header(hdr, line as int, None) == spec_workflow_header(
                    hdr.skip(j - 1),
                    line as int,
                    match wname {
                        Some(ref n) => Some(n@),
                        None => None,
                    },
                ),
            decreases tn - j,
        {
            let ghost rest = hdr.skip(j - 1);
            proof {
                assert(rest[0] == hdr[j - 1]);
                assert(hdr[j - 1] == tm[j as int]);
                assert(rest.drop_first() =~= hdr.skip(j as int));
            }
            if wname.is_some() {
                return Err(ConfigParseError::TooManyWorkflowArguments { line });
            }
            match &toks[j] {
                Token::Flag(w) => {
                    wname = Some(w.clone());
                },
                Token::Quoted(q) => {
                    wname = Some(q.clone());
                },
                Token::KeyValue { raw, .. } => {
                    return Err(
                        ConfigParseError::InvalidWorkflowName { line, name: raw.clone() },
                    );
                },
                _ => {
                    return Err(ConfigParseError::InvalidSyntax { line });
                },
            }
            j += 1;
        }
        proof {
            assert(hdr.skip(j - 1) =~= Seq::<TokenModel>::empty());
        }
        let steps_new: Vec<WorkflowStepDefinition> = Vec::new();
        proof {
            assert(steps_new@.map_values(|s: WorkflowStepDefinition| step_model(s))
                =~= Seq::<StepModel>::empty());
        }
        Ok((ParserMode::InWorkflow { name: wname, steps: steps_new, header_line: line }, config))
    } else {
        Err(ConfigParseError::InvalidNodeName { name: word.clone(), line })
    }
}

/// Process a line inside `settings { ... }`.
#[verifier::rlimit(100)]
fn step_settings(config: MmidsConfig, toks: &Vec<Token>, line: usize) -> (r: Result<
    (ParserMode, MmidsConfig),
    ConfigParseError,
>)
    requires
        config.wf(),
    ensures
        ({
            let st = machine_of(&ParserMode::InSettings, &config);
            let tm = toks@.map_values(|t: Token| t@);
            match r {
                Ok(p) => pmode_wf(&p.0) && p.1.wf() && spec_line_step(st, tm, line as int)
                    == Ok::<MachineModel, ParseErrorModel>(machine_of(&p.0, &p.1)),
                Err(e) => spec_line_step(st, tm, line as int) == Err::<
                    MachineModel,
                    ParseErrorModel,
                >(error_model(&e)),
            }
        }),
{
    let ghost st = machine_of(&ParserMode::InSettings, &config);
    let ghost tm = toks@.map_values(|t: Token| t@);
    let tn = toks.len();
    if tn == 0 {
        return Ok((ParserMode::InSettings, config));
    }
    if tn == 1 {
        match &toks[0] {
            Token::CloseBrace => {
                return Ok((ParserMode::Top, config));
            },
            _ => (),
        }
    }
    let name: &String = match &toks[0] {
        Token::Flag(w) => w,
        Token::KeyValue { .. } => {
            return Err(ConfigParseError::InvalidSettingArgumentFormat { line });
        },
        _ => {
            return Err(ConfigParseError::InvalidSyntax { line });
        },
    };
    let ghost rest = tm.drop_first();
    let args = match read_args(toks, 1, tn) {
        None => {
            proof {
                assert(rest =~= tm.subrange(1, tm.len() as int));
            }
            return Err(ConfigParseError::InvalidSyntax { line });
        },
        Some(m) => m,
    };
    proof {
        assert(rest =~= tm.subrange(1, tm.len() as int));
        args.lemma_props();
        crate::collections::lemma_assoc_dom_len(args.kvs());
        assert(omap_view(args@).dom() =~= args@.dom());
    }
    let count = args.len();
    let mut config = config;
    if count > 1 {
        return Err(ConfigParseError::TooManySettingArguments { line });
    } else if count == 1 {
        let k = args.key_at(0).clone();
        proof {
            assert(args@.contains_key(k@));
            assert(args_map(rest).dom().len() == 1);
            assert(args_map(rest).dom().contains(k@));
            lemma_singleton_choose(args_map(rest).dom(), k@);
            assert(args_map(rest)[k@] == omap_view(args@)[k@]);
            assert(omap_view(args@)[k@] == opt_view(args@[k@]));
        }
        match args.value_at(0) {
            Some(_) => {
                proof {
                    assert(args@[k@] == args.kvs()[0].1);
                    assert(args_map(rest)[args_map(rest).dom().choose()] is Some);
                }
                return Err(ConfigParseError::InvalidSettingArgumentFormat { line });
            },
            None => {
                proof {
                    assert(args@[k@] == args.kvs()[0].1);
                    assert(args_map(rest)[args_map(rest).dom().choose()] is None);
                }
                let ghost old_settings = config.settings@;
                config.settings.insert(name.clone(), Some(k));
                proof {
                    assert(omap_view(config.settings@) =~= omap_view(old_settings).insert(
                        tm[0]->Flag_0,
                        Some(args_map(rest).dom().choose()),
                    ));
                }
                return Ok((ParserMode::InSettings, config));
            },
        }
    } else {
        proof {
            assert(args_map(rest).dom().len() == 0);
        }
        let ghost old_settings = config.settings@;
        config.settings.insert(name.clone(), None);
        proof {
            assert(omap_view(config.settings@) =~= omap_view(old_settings).insert(
                tm[0]->Flag_0,
                None,
            ));
        }
        return Ok((ParserMode::InSettings, config));
    }
}

/// Process a line inside `workflow <name> { ... }`.
#[verifier::rlimit(100)]
fn step_workflow(
    wname: Option<String>,
    steps: Vec<WorkflowStepDefinition>,
    header_line: usize,
    config: MmidsConfig,
    toks: &Vec<Token>,
    line: usize,
) -> (r: Result<(ParserMode, MmidsConfig), ConfigParseError>)
    requires
        config.wf(),
        forall|i: int| 0 <= i < steps@.len() ==> (#[trigger] steps@[i]).wf(),
    ensures
        ({
            let st = MachineModel {
                mode: ModeModel::InWorkflow {
                    name: match wname {
                        Some(ref n) => Some(n@),
                        None => None,
                    },
                    steps: steps@.map_values(|s: WorkflowStepDefinition| step_model(s)),
                    header_line: header_line as int,
                },
                config: config_model(&config),
            };
            let tm = toks@.map_values(|t: Token| t@);
            match r {
                Ok(p) => pmode_wf(&p.0) && p.1.wf() && spec_line_step(st, tm, line as int)
                    == Ok::<MachineModel, ParseErrorModel>(machine_of(&p.0, &p.1)),
                Err(e) => spec_line_step(st, tm, line as int) == Err::<
                    MachineModel,
                    ParseErrorModel,
                >(error_model(&e)),
            }
        }),
{
    let ghost stm = steps@.map_values(|s: WorkflowStepDefinition| step_model(s));
    let ghost tm = toks@.map_values(|t: Token| t@);
    let tn = toks.len();
    if tn == 0 {
        return Ok((ParserMode::InWorkflow { name: wname, steps, header_line }, config));
    }
    if tn == 1 {
        match &toks[0] {
            Token::CloseBrace => {
                match wname {
                    None => {
                        return Err(ConfigParseError::NoNameOnWorkflow { line: header_line });
                    },
                    Some(n) => {
                        let mut config = config;
                        if config.workflows.contains_key(n.as_str()) {
                            return Err(ConfigParseError::DuplicateWorkflowName { name: n });
                        }
                        let ghost old_workflows = config.workflows@;
                        let def = WorkflowDefinition { name: n.clone(), steps };
                        proof {
                            assert(def.steps@.map_values(
                                |s: WorkflowStepDefinition| step_model(s),
                            ) =~= stm);
                        }
                        config.workflows.insert(n, def);
                        proof {
                            assert(Map::new(
                                |k: Seq<char>| config.workflows@.dom().contains(k),
                                |k: Seq<char>| workflow_model(config.workflows@[k]),
                            ) =~= Map::new(
                                |k: Seq<char>| old_workflows.dom().contains(k),
                                |k: Seq<char>| workflow_model(old_workflows[k]),
                            ).insert(def.name@, WorkflowModel { name: def.name@, steps: stm }));
                        }
                        return Ok((ParserMode::Top, config));
                    },
                }
            },
            _ => (),
        }
    }
    let name: &String = match &toks[0] {
        Token::Flag(w) => w,
        _ => {
            return Err(ConfigParseError::InvalidSyntax { line });
        },
    };
    let ghost rest = tm.drop_first();
    let args = match read_args(toks, 1, tn) {
        None => {
            proof {
                assert(rest =~= tm.subrange(1, tm.len() as int));
            }
            return Err(ConfigParseError::InvalidSyntax { line });
        },
        Some(m) => m,
    };
    proof {
        assert(rest =~= tm.subrange(1, tm.len() as int));
    }
    let step = WorkflowStepDefinition {
        step_type: WorkflowStepType(name.clone()),
        parameters: args,
    };
    let mut steps = steps;
    steps.push(step);
    proof {
        assert(steps@.map_values(|s: WorkflowStepDefinition| step_model(s)) =~= stm.push(
            StepModel { step_type: tm[0]->Flag_0, parameters: args_map(rest) },
        ));
    }
    Ok((ParserMode::InWorkflow { name: wname, steps, header_line }, config))
}

/// Process one token line.
fn line_step(mode: ParserMode, config: MmidsConfig, toks: &Vec<Token>, line: usize) -> (r: Result<
    (ParserMode, MmidsConfig),
    ConfigParseError,
>)
    requires
        pmode_wf(&mode),
        config.wf(),
    ensures
        ({
            let st = machine_of(&mode, &config);
            let tm = toks@.map_values(|t: Token| t@);
            match r {
                Ok(p) => pmode_wf(&p.0) && p.1.wf() && spec_line_step(st, tm, line as int)
                    == Ok::<MachineModel, ParseErrorModel>(machine_of(&p.0, &p.1)),
                Err(e) => spec_line_step(st, tm, line as int) == Err::<
                    MachineModel,
                    ParseErrorModel,
                >(error_model(&e)),
            }
        }),
{
    match mode {
        ParserMode::Top => step_top(config, toks, line),
        ParserMode::InSettings => step_settings(config, toks, line),
        ParserMode::InWorkflow { name, steps, header_line } => step_workflow(
            name,
            steps,
            header_line,
            config,
            toks,
            line,
        ),
    }
}

/// Parse a configuration text.  The result is exactly what `spec_parse`
/// denotes: on success a configuration whose model is `spec_parse`'s, on
/// failure the error `spec_parse` names, with its 1-based line number.
pub fn parse(content: &str) -> (r: Result<MmidsConfig, ConfigParseError>)
    ensures
        match r {
            Ok(c) => c.wf() && spec_parse(content@) == Ok::<ConfigModel, ParseErrorModel>(
                config_model(&c),
            ),
            Err(e) => spec_parse(content@) == Err::<ConfigModel, ParseErrorModel>(
                error_model(&e),
            ),
        },
{
    let chars = crate::strutil::chars_of(content);
    let clean = split_clean_lines(&chars);
    let ghost lm = clean@.map_values(|l: Vec<char>| l@);
    let tls = match tokenize_all(&clean) {
        Err(l) => {
            return Err(ConfigParseError::InvalidSyntax { line: l });
        },
        Ok(t) => t,
    };
    let ghost tlm = tls@.map_values(|t: Vec<Token>| t@.map_values(|tok: Token| tok@));
    let mut mode = ParserMode::Top;
    let mut config = MmidsConfig { settings: StrMap::new(), workflows: StrMap::new() };
    proof {
        assert(config_model(&config).settings =~= initial_machine().config.settings);
        assert(config_model(&config).workflows =~= initial_machine().config.workflows);
        assert(machine_of(&mode, &config) == initial_machine());
        assert(tlm.skip(0) =~= tlm);
    }
    let n = tls.len();
    let mut i: usize = 0;
    while i < n
        invariant
            i <= n,
            n == tls@.len(),
            chars@ == content@,
            lm == clean_lines(content@),
            lm == clean@.map_values(|l: Vec<char>| l@),
            clean@.len() == lm.len(),
            spec_tokenize_all(lm, 1) == Ok::<Seq<Seq<TokenModel>>, int>(tlm),
            tlm == tls@.map_values(|t: Vec<Token>| t@.map_values(|tok: Token| tok@)),
            pmode_wf(&mode),
            config.wf(),
            spec_run_lines(tlm, 1, initial_machine()) == spec_run_lines(
                tlm.skip(i as int),
                i + 1,
                machine_of(&mode, &config),
            ),
        decreases n - i,
    {
        let ghost rest = tlm.skip(i as int);
        let ghost cur = machine_of(&mode, &config);
        proof {
            assert(rest[0] == tlm[i as int]);
            assert(rest.drop_first() =~= tlm.skip(i + 1));
            assert(tlm[i as int] == tls@[i as int]@.map_values(|tok: Token| tok@));
        }
        match line_step(mode, config, &tls[i], i + 1) {
            Err(e) => {
                proof {
                    assert(spec_line_step(cur, rest[0], i + 1) == Err::<
                        MachineModel,
                        ParseErrorModel,
                    >(error_model(&e)));
                    assert(spec_run_lines(rest, i + 1, cur) == Err::<
                        MachineModel,
                        ParseErrorModel,
                    >(error_model(&e)));
                    assert(chars@ == content@);
                    assert(spec_parse(content@) == Err::<ConfigModel, ParseErrorModel>(
                        error_model(&e),
                    ));
                }
                return Err(e);
            },
            Ok(p) => {
                mode = p.0;
                config = p.1;
                proof {
                    assert(spec_line_step(cur, rest[0], i + 1) == Ok::<
                        MachineModel,
                        ParseErrorModel,
                    >(machine_of(&mode, &config)));
                    assert(spec_run_lines(rest, i + 1, cur) == spec_run_lines(
                        tlm.skip(i + 1),
                        i + 2,
                        machine_of(&mode, &config),
                    ));
                }
            },
        }
        i += 1;
    }
    proof {
        assert(tlm.skip(n as int) =~= Seq::<Seq<TokenModel>>::empty());
    }
    proof {
        assert(spec_run_lines(tlm, 1, initial_machine()) == Ok::<MachineModel, ParseErrorModel>(
            machine_of(&mode, &config),
        ));
        assert(chars@ == content@);
        assert(lm.len() == clean_lines(content@).len());
    }
    match mode {
        ParserMode::Top => Ok(config),
        _ => Err(ConfigParseError::InvalidSyntax { line: clean.len() }),
    }
}

} // verus!
