//! Processing a command line: how it splits into pipeline stages, and what
//! each built-in command asks of the repository and answers.

use crate::interrupt::{clear_interrupt, Interrupt};
use crate::ocfl::{all_paths, has_head, head_of, lemma_all_paths_concatenates, lemma_lookup_in_ordered_inventory, Inventory, InventoryView, OcflApi, Ocfl, Version};
use crate::shell::ShellControl;
use crate::text::{
    decimal, decimal_spec, has_prefix, split_pipes, split_pipes_spec, split_words, starts_with,
    is_ws, str_equal, trim, trimmed, words,
};
use vstd::prelude::*;

verus! {

/// A command of a pipeline stage.
pub enum Command {
    /// `versions`: list the versions of the current object.
    Versions,
    /// `pwd`: print the current directory (and object).
    Pwd,
    /// `cd`, with its arguments.
    Cd(Vec<String>),
    /// `ls`, with its arguments.
    Ls(Vec<String>),
    /// Any other program, with its arguments.
    External(String, Vec<String>),
}

/// The mathematical value of a [`Command`].
pub enum CommandView {
    Versions,
    Pwd,
    Cd(Seq<Seq<char>>),
    Ls(Seq<Seq<char>>),
    External(Seq<char>, Seq<Seq<char>>),
}

impl View for Command {
    type V = CommandView;

    open spec fn view(&self) -> CommandView {
        match self {
            Command::Versions => CommandView::Versions,
            Command::Pwd => CommandView::Pwd,
            Command::Cd(a) => CommandView::Cd(a.deep_view()),
            Command::Ls(a) => CommandView::Ls(a.deep_view()),
            Command::External(p, a) => CommandView::External(p@, a.deep_view()),
        }
    }
}

/// One stage of a pipeline.
pub struct Stage {
    /// What the stage runs.
    pub command: Command,
    /// Another stage follows, so the output goes down the pipe rather than to
    /// the shell's output.
    pub piped: bool,
    /// The stage is an outside program whose input is the output of the
    /// stage run just before it (a built-in command that writes output, or
    /// another outside program).
    pub reads_previous: bool,
}

/// The mathematical value of a [`Stage`].
pub struct StageView {
    pub command: CommandView,
    pub piped: bool,
    pub reads_previous: bool,
}

impl View for Stage {
    type V = StageView;

    open spec fn view(&self) -> StageView {
        StageView { command: self.command@, piped: self.piped, reads_previous: self.reads_previous }
    }
}

impl DeepView for Stage {
    type V = StageView;

    open spec fn deep_view(&self) -> StageView {
        self@
    }
}

/// What a command line comes to: the stages to run, in order, and whether the
/// shell goes on afterwards.
pub struct Plan {
    pub stages: Vec<Stage>,
    pub control: ShellControl,
}

/// The mathematical value of a [`Plan`].
pub struct PlanView {
    pub stages: Seq<StageView>,
    pub control: ShellControl,
}

impl View for Plan {
    type V = PlanView;

    open spec fn view(&self) -> PlanView {
        PlanView { stages: self.stages.deep_view(), control: self.control }
    }
}

/// The command that a stage's words name (`ws` is not empty).
pub open spec fn classify(ws: Seq<Seq<char>>) -> CommandView {
    let rest = ws.subrange(1, ws.len() as int);
    if ws[0] == "versions"@ {
        CommandView::Versions
    } else if ws[0] == "pwd"@ {
        CommandView::Pwd
    } else if ws[0] == "cd"@ {
        CommandView::Cd(rest)
    } else if ws[0] == "ls"@ {
        CommandView::Ls(rest)
    } else {
        CommandView::External(ws[0], rest)
    }
}

/// The command writes output of its own (`versions`, `pwd`, `ls`).
pub open spec fn writes_output(c: CommandView) -> bool {
    c is Versions || c is Pwd || c is Ls
}

/// The stage sends output down the pipe to the stage after it: a built-in
/// that writes output, or an outside program.
pub open spec fn feeds_pipe(c: CommandView) -> bool {
    writes_output(c) || c is External
}

/// The stages for `pieces[k..]`, and whether an `exit` ends them; `after_output`
/// tells whether the last stage run so far sends output down the pipe.
/// Pieces without words are passed over; a piece whose first word is `exit`
/// ends the line.
pub open spec fn stages_from(pieces: Seq<Seq<char>>, k: int, after_output: bool) -> (
    Seq<StageView>,
    bool,
)
    decreases pieces.len() - k,
{
    if k < 0 || k >= pieces.len() {
        (Seq::empty(), false)
    } else {
        let ws = words(pieces[k]);
        if ws.len() == 0 {
            stages_from(pieces, k + 1, after_output)
        } else if ws[0] == "exit"@ {
            (Seq::empty(), true)
        } else {
            let c = classify(ws);
            let stage = StageView {
                command: c,
                piped: k + 1 < pieces.len(),
                reads_previous: c is External && after_output,
            };
            let rest = stages_from(pieces, k + 1, feeds_pipe(c));
            (seq![stage] + rest.0, rest.1)
        }
    }
}

/// What a command line comes to: nothing for an empty line; otherwise the
/// line is trimmed and split at each `" | "` into stages.
pub open spec fn plan_of(input: Seq<char>) -> PlanView {
    if input.len() == 0 {
        PlanView { stages: Seq::empty(), control: ShellControl::Continue }
    } else {
        let r = stages_from(split_pipes_spec(trimmed(input)), 0, false);
        PlanView {
            stages: r.0,
            control: if r.1 {
                ShellControl::Exit
            } else {
                ShellControl::Continue
            },
        }
    }
}

/// The piece's first word is `exit`.
pub open spec fn exits(piece: Seq<char>) -> bool {
    words(piece).len() > 0 && words(piece)[0] == "exit"@
}

/// `name` is one of the shell's own commands.
pub open spec fn is_builtin_name(name: Seq<char>) -> bool {
    name == "versions"@ || name == "pwd"@ || name == "cd"@ || name == "ls"@ || name == "exit"@
}

/// The stage runs an outside program whose name is no built-in command.
pub open spec fn outside_program_named_well(st: StageView) -> bool {
    st.command matches CommandView::External(name, _) ==> !is_builtin_name(name)
}

proof fn lemma_stages_from(pieces: Seq<Seq<char>>, k: int, after_output: bool)
    requires
        0 <= k <= pieces.len(),
    ensures
        stages_from(pieces, k, after_output).1 <==> exists|j: int|
            k <= j < pieces.len() && exits(#[trigger] pieces[j]),
        stages_from(pieces, k, after_output).0.len() <= pieces.len() - k,
        forall|i: int|
            0 <= i < stages_from(pieces, k, after_output).0.len() ==> outside_program_named_well(
                #[trigger] stages_from(pieces, k, after_output).0[i],
            ),
        stages_from(pieces, k, after_output).0.len() > 0 ==> stages_from(
            pieces,
            k,
            after_output,
        ).0[0].reads_previous == (stages_from(pieces, k, after_output).0[0].command is External
            && after_output),
        forall|i: int|
            0 <= i < stages_from(pieces, k, after_output).0.len() - 1 ==> connected(
                #[trigger] stages_from(pieces, k, after_output).0[i],
                stages_from(pieces, k, after_output).0[i + 1],
            ),
        forall|i: int|
            0 <= i < stages_from(pieces, k, after_output).0.len() ==> exists|j: int|
                k <= j < pieces.len() && command_words(
                    (#[trigger] stages_from(pieces, k, after_output).0[i]).command,
                    words(pieces[j]),
                ),
    decreases pieces.len() - k,
{
    if k < pieces.len() {
        let ws = words(pieces[k]);
        if ws.len() == 0 {
            lemma_stages_from(pieces, k + 1, after_output);
            if exists|j: int| k <= j < pieces.len() && exits(#[trigger] pieces[j]) {
                let j = choose|j: int| k <= j < pieces.len() && exits(#[trigger] pieces[j]);
                assert(j != k);
            }
        } else if ws[0] == "exit"@ {
            assert(exits(pieces[k]));
        } else {
            let c = classify(ws);
            lemma_stages_from(pieces, k + 1, feeds_pipe(c));
            assert(!exits(pieces[k]));
            if exists|j: int| k <= j < pieces.len() && exits(#[trigger] pieces[j]) {
                let j = choose|j: int| k <= j < pieces.len() && exits(#[trigger] pieces[j]);
                assert(j != k);
            }
            let r = stages_from(pieces, k, after_output);
            let rest = stages_from(pieces, k + 1, feeds_pipe(c));
            assert forall|i: int| 0 <= i < r.0.len() implies outside_program_named_well(
                #[trigger] r.0[i],
            ) by {
                if i > 0 {
                    assert(r.0[i] == rest.0[i - 1]);
                }
            }
            lemma_command_keeps_words(ws);
            assert forall|i: int| 0 <= i < r.0.len() implies exists|j: int|
                k <= j < pieces.len() && command_words((#[trigger] r.0[i]).command, words(pieces[j])) by {
                if i > 0 {
                    assert(r.0[i] == rest.0[i - 1]);
                } else {
                    assert(command_words(r.0[0].command, words(pieces[k])));
                }
            }
            assert forall|i: int| 0 <= i < r.0.len() - 1 implies connected(
                #[trigger] r.0[i],
                r.0[i + 1],
            ) by {
                assert(r.0[i + 1] == rest.0[i]);
                if i > 0 {
                    assert(r.0[i] == rest.0[i - 1]);
                    assert(connected(rest.0[i - 1], rest.0[i]));
                }
            }
        }
    }
}

/// Stage `b` runs right after stage `a` in a pipeline: `a` sends its output
/// down the pipe, and `b` reads it when `b` is an outside program and `a`
/// writes output.
pub open spec fn connected(a: StageView, b: StageView) -> bool {
    a.piped && b.reads_previous == (b.command is External && feeds_pipe(a.command))
}

/// What a command line comes to: the shell stops exactly when some stage's
/// first word is `exit`; there are never more stages than pieces between
/// separators; an outside program never bears a built-in command's name; the
/// first stage reads no pipe; and each stage but the last sends its output
/// down the pipe to the next, which reads it when it is an outside program
/// (so `cmd1 | cmd2` feeds the output of `cmd1` to `cmd2`); and every
/// stage's command is named by the first word of one of the pieces and takes
/// all that piece's remaining words as its arguments.
pub proof fn lemma_plan_shape(input: Seq<char>)
    requires
        input.len() > 0,
    ensures
        (plan_of(input).control == ShellControl::Exit) <==> exists|j: int|
            0 <= j < split_pipes_spec(trimmed(input)).len() && exits(
                #[trigger] split_pipes_spec(trimmed(input))[j],
            ),
        plan_of(input).stages.len() <= split_pipes_spec(trimmed(input)).len(),
        forall|i: int|
            0 <= i < plan_of(input).stages.len() ==> outside_program_named_well(
                #[trigger] plan_of(input).stages[i],
            ),
        plan_of(input).stages.len() > 0 ==> !plan_of(input).stages[0].reads_previous,
        forall|i: int|
            0 <= i < plan_of(input).stages.len() - 1 ==> connected(
                #[trigger] plan_of(input).stages[i],
                plan_of(input).stages[i + 1],
            ),
        forall|i: int|
            0 <= i < plan_of(input).stages.len() ==> exists|j: int|
                0 <= j < split_pipes_spec(trimmed(input)).len() && command_words(
                    (#[trigger] plan_of(input).stages[i]).command,
                    words(split_pipes_spec(trimmed(input))[j]),
                ),
{
    lemma_stages_from(split_pipes_spec(trimmed(input)), 0, false);
}

proof fn lemma_skip_all_ws(s: Seq<char>, i: int)
    requires
        0 <= i <= s.len(),
        forall|k: int| 0 <= k < s.len() ==> is_ws(#[trigger] s[k]),
    ensures
        crate::text::skip_ws(s, i) == s.len(),
    decreases s.len() - i,
{
    if i < s.len() {
        lemma_skip_all_ws(s, i + 1);
    }
}

/// A line of whitespace alone runs nothing, and the shell goes on.
pub proof fn lemma_blank_line_runs_nothing(input: Seq<char>)
    requires
        forall|k: int| 0 <= k < input.len() ==> is_ws(#[trigger] input[k]),
    ensures
        plan_of(input).stages.len() == 0,
        plan_of(input).control == ShellControl::Continue,
{
    if input.len() > 0 {
        lemma_skip_all_ws(input, 0);
        let t = trimmed(input);
        assert(t =~= Seq::<char>::empty());
        let ps = split_pipes_spec(t);
        assert(ps == seq![t.subrange(0, 0)]);
        assert(words(ps[0]) =~= Seq::<Seq<char>>::empty());
        assert(stages_from(ps, 1, false) == (Seq::<StageView>::empty(), false));
    }
}

/// The command that the words `ws` of a stage name.
fn command_of(ws: Vec<String>) -> (r: Command)
    requires
        ws.len() > 0,
    ensures
        r@ == classify(ws.deep_view()),
{
    let mut name_vec = ws;
    let ghost all = name_vec.deep_view();
    let rest = name_vec.split_off(1);
    proof {
        assert(rest.deep_view() =~= all.subrange(1, all.len() as int));
        assert(name_vec.deep_view()[0] == all[0]);
    }
    let name = &name_vec[0];
    if str_equal(name.as_str(), "versions") {
        Command::Versions
    } else if str_equal(name.as_str(), "pwd") {
        Command::Pwd
    } else if str_equal(name.as_str(), "cd") {
        Command::Cd(rest)
    } else if str_equal(name.as_str(), "ls") {
        Command::Ls(rest)
    } else {
        Command::External(name.clone(), rest)
    }
}

/// The stages of a trimmed, non-empty command line.
fn plan_stages(line: &str) -> (r: (Vec<Stage>, bool))
    ensures
        r.0.deep_view() == stages_from(split_pipes_spec(line@), 0, false).0,
        r.1 == stages_from(split_pipes_spec(line@), 0, false).1,
{
    let pieces = split_pipes(line);
    let ghost ps = pieces.deep_view();
    let mut stages: Vec<Stage> = Vec::new();
    let mut after_output = false;
    let mut k: usize = 0;
    while k < pieces.len()
        invariant
            ps == pieces.deep_view(),
            ps == split_pipes_spec(line@),
            k <= pieces.len(),
            stages.deep_view() + stages_from(ps, k as int, after_output).0 == stages_from(
                ps,
                0,
                false,
            ).0,
            stages_from(ps, k as int, after_output).1 == stages_from(ps, 0, false).1,
        decreases pieces.len() - k,
    {
        let ws = split_words(pieces[k].as_str());
        assert(ws.deep_view() == words(ps[k as int]));
        if ws.len() == 0 {
            k = k + 1;
        } else if str_equal(ws[0].as_str(), "exit") {
            proof {
                assert(ws.deep_view()[0] == ws@[0]@);
                assert(stages.deep_view() + Seq::<StageView>::empty() =~= stages.deep_view());
            }
            return (stages, true);
        } else {
            proof {
                assert(ws.deep_view()[0] == ws@[0]@);
            }
            let command = command_of(ws);
            let output = match &command {
                Command::Cd(_) => false,
                _ => true,
            };
            let external = match &command {
                Command::External(_, _) => true,
                _ => false,
            };
            let stage = Stage {
                command,
                piped: k + 1 < pieces.len(),
                reads_previous: external && after_output,
            };
            let ghost before = stages.deep_view();
            stages.push(stage);
            proof {
                assert(stages.deep_view() =~= before.push(stage@));
                let rest = stages_from(ps, k + 1, output);
                assert(stages_from(ps, k as int, after_output).0 == seq![stage@] + rest.0);
                assert(before + (seq![stage@] + rest.0) =~= stages.deep_view() + rest.0);
            }
            after_output = output;
            k = k + 1;
        }
    }
    proof {
        assert(stages.deep_view() + Seq::<StageView>::empty() =~= stages.deep_view());
    }
    (stages, false)
}

/// What `ls` lists.
pub enum Listing {
    /// These lines.
    Lines(Vec<String>),
    /// The size of this file and its name, on one line (see [`size_line`]).
    FileSize(String),
}

/// Where `cd` goes.
pub enum CdAction {
    /// Into this directory.
    Enter(String),
    /// Into `target` if it exists; otherwise as [`CdAction::Fallback`] with
    /// `fallback`.
    Probe { target: String, fallback: Option<String> },
    /// Into the given directory, or, without one, stay where the shell is.
    Fallback(Option<String>),
}

/// The mathematical value of a [`Listing`].
pub enum ListingView {
    Lines(Seq<Seq<char>>),
    FileSize(Seq<char>),
}

impl View for Listing {
    type V = ListingView;

    open spec fn view(&self) -> ListingView {
        match self {
            Listing::Lines(l) => ListingView::Lines(l.deep_view()),
            Listing::FileSize(n) => ListingView::FileSize(n@),
        }
    }
}

/// The mathematical value of an answer of `ls`.
pub open spec fn listing_result(r: Result<Listing, String>) -> Result<ListingView, Seq<char>> {
    match r {
        Ok(l) => Ok(l@),
        Err(e) => Err(e@),
    }
}

/// The mathematical value of a [`CdAction`].
pub enum CdActionView {
    Enter(Seq<char>),
    Probe { target: Seq<char>, fallback: Option<Seq<char>> },
    Fallback(Option<Seq<char>>),
}

impl View for CdAction {
    type V = CdActionView;

    open spec fn view(&self) -> CdActionView {
        match self {
            CdAction::Enter(d) => CdActionView::Enter(d@),
            CdAction::Probe { target, fallback } => CdActionView::Probe {
                target: target@,
                fallback: opt_chars(*fallback),
            },
            CdAction::Fallback(f) => CdActionView::Fallback(opt_chars(*f)),
        }
    }
}

/// The last element of `s`, if any.
pub open spec fn last_of(s: Seq<Seq<char>>) -> Option<Seq<char>> {
    if s.len() > 0 {
        Some(s.last())
    } else {
        None
    }
}

/// The view of an optional string.
pub open spec fn opt_chars(o: Option<String>) -> Option<Seq<char>> {
    match o {
        Some(s) => Some(s@),
        None => None,
    }
}

/// What `pwd` prints in `cwd`: the object's identifier when `cwd` is an
/// object root, then the directory.
pub open spec fn pwd_answer(cwd: Seq<char>, object_id: Option<Seq<char>>) -> Seq<Seq<char>> {
    match object_id {
        Some(id) => seq!["Object ID "@ + id, cwd],
        None => seq![cwd],
    }
}

/// The line `ls` prints for a file: its size in bytes, a tab, its name.
pub open spec fn size_line_spec(size: u64, name: Seq<char>) -> Seq<char> {
    decimal_spec(size as nat) + "\t"@ + name
}

/// The message for an inventory whose head version is missing.
pub open spec fn missing_head_spec(inv: InventoryView) -> Seq<char> {
    "Version "@ + inv.head + " missing from inventory json for id "@ + inv.id
}

/// Which listing `ls` gives.
pub enum LsPlan {
    /// The logical paths of the head version of the object here.
    HeadState,
    /// The size and name of the file that the last argument names.
    FileSize,
    /// The identifiers of all objects.
    AllObjects,
    /// The logical paths of the head version of the object with this identifier.
    ObjectState(String),
    /// A notice: there is nothing to list here.
    NothingToDo,
}

/// The mathematical value of an [`LsPlan`].
pub enum LsPlanView {
    HeadState,
    FileSize,
    AllObjects,
    ObjectState(Seq<char>),
    NothingToDo,
}

impl View for LsPlan {
    type V = LsPlanView;

    open spec fn view(&self) -> LsPlanView {
        match self {
            LsPlan::HeadState => LsPlanView::HeadState,
            LsPlan::FileSize => LsPlanView::FileSize,
            LsPlan::AllObjects => LsPlanView::AllObjects,
            LsPlan::ObjectState(id) => LsPlanView::ObjectState(id@),
            LsPlan::NothingToDo => LsPlanView::NothingToDo,
        }
    }
}

/// Which listing `ls` gives with arguments `args` in a directory that is an
/// object root or not, and, when it is not, a repository root or not.
pub open spec fn ls_plan_spec(object_root: bool, repository_root: bool, args: Seq<Seq<char>>) -> LsPlanView {
    if object_root {
        if args.len() == 0 {
            LsPlanView::HeadState
        } else {
            LsPlanView::FileSize
        }
    } else if repository_root {
        if args.len() == 0 || has_prefix(args.last(), "-"@) {
            LsPlanView::AllObjects
        } else {
            LsPlanView::ObjectState(args.last())
        }
    } else {
        LsPlanView::NothingToDo
    }
}

/// Which listing `ls` gives (see [`ls_plan_spec`]).
pub fn ls_plan(object_root: bool, repository_root: bool, args: &Vec<String>) -> (r: LsPlan)
    ensures
        r@ == ls_plan_spec(object_root, repository_root, args.deep_view()),
{
    if object_root {
        if args.len() == 0 {
            LsPlan::HeadState
        } else {
            LsPlan::FileSize
        }
    } else if repository_root {
        if args.len() == 0 {
            LsPlan::AllObjects
        } else {
            let last = &args[args.len() - 1];
            assert(args.deep_view().last() == last@);
            if starts_with(last.as_str(), "-") {
                LsPlan::AllObjects
            } else {
                LsPlan::ObjectState(last.clone())
            }
        }
    } else {
        LsPlan::NothingToDo
    }
}

/// An optional inventory, by its view.
pub open spec fn inventory_view(o: Option<&Inventory>) -> Option<InventoryView> {
    match o {
        Some(inv) => Some(inv@),
        None => None,
    }
}

/// What `ls` lists for an object: the logical paths of its head version, or
/// the message for a missing head.
pub open spec fn head_listing(inv: InventoryView) -> Result<ListingView, Seq<char>> {
    if has_head(inv) {
        Ok(ListingView::Lines(all_paths(head_of(inv).state)))
    } else {
        Err(missing_head_spec(inv))
    }
}

/// What `ls` answers under `plan`, given what the repository answered: the
/// inventories of all objects (`objects`), the inventory of the object that is
/// listed (`inventory`), and the arguments resolved against that object
/// (`resolved`).
pub open spec fn ls_listing_spec(
    plan: LsPlanView,
    objects: Option<Seq<Inventory>>,
    inventory: Option<InventoryView>,
    resolved: Option<Seq<Seq<char>>>,
) -> Result<ListingView, Seq<char>> {
    match plan {
        LsPlanView::HeadState => head_listing(inventory.unwrap()),
        LsPlanView::ObjectState(_) => head_listing(inventory.unwrap()),
        LsPlanView::FileSize => if !has_head(inventory.unwrap()) {
            Err(missing_head_spec(inventory.unwrap()))
        } else if resolved.unwrap().len() == 0 {
            Err("ls: no file to list"@)
        } else {
            Ok(ListingView::FileSize(resolved.unwrap().last()))
        },
        LsPlanView::AllObjects => Ok(
            ListingView::Lines(objects.unwrap().map_values(|inv: Inventory| inv.id@)),
        ),
        LsPlanView::NothingToDo => Ok(ListingView::Lines(seq!["Nothing to do"@])),
    }
}

/// `ls` on an object (its own, or the one the last argument names) lists
/// the version stored under the inventory's head name: when entry `i` of the
/// versions has the head's name, the lines are that version's path lists, in
/// order, one after the other. When no version has the head's name, `ls`
/// fails with the missing-head message.
pub proof fn lemma_ls_lists_head_version(
    plan: LsPlanView,
    objects: Option<Seq<Inventory>>,
    inv: Inventory,
    resolved: Option<Seq<Seq<char>>>,
    i: int,
)
    requires
        inv.wf(),
        plan is HeadState || plan is ObjectState,
    ensures
        0 <= i < inv@.versions.len() && inv@.versions[i].0 == inv@.head ==> ls_listing_spec(
            plan,
            objects,
            Some(inv@),
            resolved,
        ) == Ok::<ListingView, Seq<char>>(
            ListingView::Lines(
                inv@.versions[i].1.state.map_values(|e: (Seq<char>, Seq<Seq<char>>)| e.1).flatten(),
            ),
        ),
        (forall|k: int| 0 <= k < inv@.versions.len() ==> #[trigger] inv@.versions[k].0 != inv@.head)
            ==> ls_listing_spec(plan, objects, Some(inv@), resolved) == Err::<ListingView, Seq<char>>(
            missing_head_spec(inv@),
        ),
{
    if 0 <= i < inv@.versions.len() && inv@.versions[i].0 == inv@.head {
        lemma_lookup_in_ordered_inventory(inv, i, 0);
        lemma_all_paths_concatenates(inv@.versions[i].1.state);
    }
    if forall|k: int| 0 <= k < inv@.versions.len() ==> #[trigger] inv@.versions[k].0 != inv@.head {
        if has_head(inv@) {
            lemma_lookup_found(inv@.versions, inv@.head, 0);
        }
    }
}

/// `ls` for a file answers the last of the arguments as the repository
/// resolved them (for an object that holds its head version), and fails when
/// none came back; `ls` of all objects lists the identifiers of the
/// repository's inventories, one per inventory, in order; elsewhere it
/// answers the one line "Nothing to do".
pub proof fn lemma_ls_other_listings(
    objects: Seq<Inventory>,
    inv: InventoryView,
    resolved: Seq<Seq<char>>,
    inventory: Option<InventoryView>,
)
    ensures
        has_head(inv) && resolved.len() > 0 ==> ls_listing_spec(
            LsPlanView::FileSize,
            None,
            Some(inv),
            Some(resolved),
        ) == Ok::<ListingView, Seq<char>>(ListingView::FileSize(resolved[resolved.len() - 1])),
        has_head(inv) && resolved.len() == 0 ==> ls_listing_spec(
            LsPlanView::FileSize,
            None,
            Some(inv),
            Some(resolved),
        ) == Err::<ListingView, Seq<char>>("ls: no file to list"@),
        ls_listing_spec(LsPlanView::AllObjects, Some(objects), inventory, None) matches Ok(
            ListingView::Lines(lines),
        ) && lines.len() == objects.len() && forall|k: int|
            0 <= k < objects.len() ==> #[trigger] lines[k] == objects[k].id@,
        ls_listing_spec(LsPlanView::NothingToDo, None, inventory, None) == Ok::<
            ListingView,
            Seq<char>,
        >(ListingView::Lines(seq!["Nothing to do"@])),
{
}

proof fn lemma_lookup_found<V>(e: crate::ocfl::Entries<V>, key: Seq<char>, j: int)
    requires
        0 <= j,
        crate::ocfl::lookup_from(e, key, j) is Some,
    ensures
        exists|k: int| j <= k < e.len() && #[trigger] e[k].0 == key,
    decreases e.len() - j,
{
    if j < e.len() && e[j].0 != key {
        lemma_lookup_found(e, key, j + 1);
        let k = choose|k: int| j + 1 <= k < e.len() && #[trigger] e[k].0 == key;
        assert(e[k].0 == key);
    } else if j < e.len() {
        assert(e[j].0 == key);
    }
}

/// `ls` at the repository root (outside an object root) lists the object
/// that the last argument names when there is a last argument that does not
/// begin with `-`, whatever the earlier arguments are; without arguments, or
/// with a last argument beginning with `-`, it lists all objects. In an object
/// root it lists the head version's paths without arguments and a file's
/// size with them; elsewhere it has nothing to do.
pub proof fn lemma_ls_plan_by_last_argument(args: Seq<Seq<char>>, repository_root: bool)
    ensures
        args.len() > 0 && !(args.last().len() > 0 && args.last()[0] == '-') ==> ls_plan_spec(
            false,
            true,
            args,
        ) == LsPlanView::ObjectState(args.last()),
        (args.len() == 0 || (args.last().len() > 0 && args.last()[0] == '-')) ==> ls_plan_spec(
            false,
            true,
            args,
        ) == LsPlanView::AllObjects,
        args.len() == 0 ==> ls_plan_spec(true, repository_root, args) == LsPlanView::HeadState,
        args.len() > 0 ==> ls_plan_spec(true, repository_root, args) == LsPlanView::FileSize,
        ls_plan_spec(false, false, args) == LsPlanView::NothingToDo,
{
    reveal_strlit("-");
    if args.len() > 0 {
        let l = args.last();
        if l.len() > 0 && l[0] == '-' {
            assert(l.subrange(0, 1) =~= "-"@);
        } else if l.len() > 0 {
            assert(l.subrange(0, 1)[0] == l[0]);
        }
    }
}

/// The words of a stage with its command: the command's name is the stage's
/// first word and its arguments are all the remaining words, in order; an
/// outside program is named by no built-in command.
pub open spec fn command_words(c: CommandView, ws: Seq<Seq<char>>) -> bool {
    match c {
        CommandView::Versions => ws.len() > 0 && ws[0] == "versions"@,
        CommandView::Pwd => ws.len() > 0 && ws[0] == "pwd"@,
        CommandView::Cd(a) => ws == seq!["cd"@] + a,
        CommandView::Ls(a) => ws == seq!["ls"@] + a,
        CommandView::External(n, a) => ws == seq![n] + a && !is_builtin_name(n),
    }
}

/// A stage's command keeps all its words: for words whose first word is not
/// `exit`, the command is named by the first word and takes every remaining
/// word, in order, as its arguments; words whose first word names no built-in
/// command make an outside program.
pub proof fn lemma_command_keeps_words(ws: Seq<Seq<char>>)
    requires
        ws.len() > 0,
        ws[0] != "exit"@,
    ensures
        command_words(classify(ws), ws),
        !is_builtin_name(ws[0]) ==> classify(ws) == CommandView::External(
            ws[0],
            ws.subrange(1, ws.len() as int),
        ),
{
    assert(ws =~= seq![ws[0]] + ws.subrange(1, ws.len() as int));
}

/// The repository's answers that `ls` needs under `plan` are at hand: the
/// object list for all objects; the inventory for an object's paths or a
/// file's size; and, for a file's size in an object with a head version, the
/// resolved arguments.
pub open spec fn ls_answers_given(
    plan: LsPlanView,
    objects: Option<Seq<Inventory>>,
    inventory: Option<InventoryView>,
    resolved: Option<Seq<Seq<char>>>,
) -> bool {
    match plan {
        LsPlanView::HeadState => inventory is Some,
        LsPlanView::ObjectState(_) => inventory is Some,
        LsPlanView::FileSize => inventory is Some && (has_head(inventory.unwrap()) ==> resolved is Some),
        LsPlanView::AllObjects => objects is Some,
        LsPlanView::NothingToDo => true,
    }
}

/// What `ls` answers under `plan`, given what the repository answered (see
/// [`ls_listing_spec`]).
pub fn ls_listing(
    plan: &LsPlan,
    objects: Option<&Vec<Inventory>>,
    inventory: Option<&Inventory>,
    resolved: Option<&Vec<String>>,
) -> (r: Result<Listing, String>)
    requires
        inventory matches Some(inv) ==> inv.wf(),
        ls_answers_given(
            plan@,
            match objects {
                Some(o) => Some(o@),
                None => None,
            },
            inventory_view(inventory),
            match resolved {
                Some(a) => Some(a.deep_view()),
                None => None,
            },
        ),
    ensures
        listing_result(r) == ls_listing_spec(
            plan@,
            match objects {
                Some(o) => Some(o@),
                None => None,
            },
            inventory_view(inventory),
            match resolved {
                Some(a) => Some(a.deep_view()),
                None => None,
            },
        ),
{
    match plan {
        LsPlan::HeadState | LsPlan::ObjectState(_) => {
            let inv = inventory.unwrap();
            match head_or_error(inv) {
                Ok(v) => Ok(Listing::Lines(Ocfl::state_paths(&v))),
                Err(m) => Err(m),
            }
        },
        LsPlan::FileSize => {
            let inv = inventory.unwrap();
            match head_or_error(inv) {
                Ok(_) => {
                    let args = resolved.unwrap();
                    if args.len() == 0 {
                        Err("ls: no file to list".to_owned())
                    } else {
                        assert(args.deep_view().last() == args@[args.len() - 1]@);
                        Ok(Listing::FileSize(args[args.len() - 1].clone()))
                    }
                },
                Err(m) => Err(m),
            }
        },
        LsPlan::AllObjects => Ok(Listing::Lines(Ocfl::object_ids(objects.unwrap()))),
        LsPlan::NothingToDo => {
            let mut lines: Vec<String> = Vec::new();
            lines.push("Nothing to do".to_owned());
            assert(lines.deep_view() =~= seq!["Nothing to do"@]);
            Ok(Listing::Lines(lines))
        },
    }
}

/// Where `cd` heads.
pub enum CdPlan {
    /// Into the object that the first argument identifies, or the repository
    /// root without arguments, if that exists.
    IntoObject,
    /// Back to the repository root.
    ToRoot,
    /// Into the last argument, or nowhere without arguments.
    ToArgument,
}

/// Where `cd` heads with arguments `args` from a directory that is a
/// repository root or not, and, when it is not and there are arguments, an
/// object root or not.
pub open spec fn cd_plan_spec(repository_root: bool, object_root: bool, args: Seq<Seq<char>>) -> CdPlan {
    if repository_root {
        CdPlan::IntoObject
    } else if args.len() > 0 && object_root && args.last() == ".."@ {
        CdPlan::ToRoot
    } else {
        CdPlan::ToArgument
    }
}

/// Where `cd` heads (see [`cd_plan_spec`]).
pub fn cd_plan(repository_root: bool, object_root: bool, args: &Vec<String>) -> (r: CdPlan)
    ensures
        r == cd_plan_spec(repository_root, object_root, args.deep_view()),
{
    if repository_root {
        CdPlan::IntoObject
    } else if args.len() > 0 && object_root {
        assert(args.deep_view().last() == args@[args.len() - 1]@);
        if str_equal(args[args.len() - 1].as_str(), "..") {
            CdPlan::ToRoot
        } else {
            CdPlan::ToArgument
        }
    } else {
        CdPlan::ToArgument
    }
}

/// Where `cd` goes under `plan`, given the path of the object that the first
/// argument identifies (`id_path`, asked for only when there are arguments)
/// and the repository root: under [`CdPlan::IntoObject`] into that object, or
/// the root without arguments, if that exists, else as a fallback into the
/// last argument; under [`CdPlan::ToRoot`] into the root; under
/// [`CdPlan::ToArgument`] into the last argument, if any.
pub open spec fn cd_action_spec(
    plan: CdPlan,
    id_path: Option<Seq<char>>,
    root: Seq<char>,
    args: Seq<Seq<char>>,
) -> CdActionView {
    match plan {
        CdPlan::IntoObject => CdActionView::Probe {
            target: if args.len() > 0 {
                id_path.unwrap()
            } else {
                root
            },
            fallback: last_of(args),
        },
        CdPlan::ToRoot => CdActionView::Enter(root),
        CdPlan::ToArgument => CdActionView::Fallback(last_of(args)),
    }
}

/// Where `cd` goes under `plan` (see [`cd_action_spec`]).
pub fn cd_action(plan: CdPlan, id_path: Option<String>, root: &String, args: &Vec<String>) -> (r:
    CdAction)
    requires
        plan == CdPlan::IntoObject && args.len() > 0 ==> id_path is Some,
    ensures
        r@ == cd_action_spec(plan, opt_chars(id_path), root@, args.deep_view()),
{
    let fallback: Option<String> = if args.len() > 0 {
        assert(args.deep_view().last() == args@[args.len() - 1]@);
        Some(args[args.len() - 1].clone())
    } else {
        None
    };
    match plan {
        CdPlan::IntoObject => {
            let target = if args.len() > 0 {
                id_path.unwrap()
            } else {
                root.clone()
            };
            CdAction::Probe { target, fallback }
        },
        CdPlan::ToRoot => CdAction::Enter(root.clone()),
        CdPlan::ToArgument => CdAction::Fallback(fallback),
    }
}

/// The line `ls` prints for a file of `size` bytes named `name`.
pub fn size_line(size: u64, name: &String) -> (r: String)
    ensures
        r@ == size_line_spec(size, name@),
{
    let mut r = decimal(size);
    r.append("\t");
    r.append(name.as_str());
    r
}

/// What `pwd` prints in `cwd`, given the identifier of the object rooted there.
pub fn pwd_lines(cwd: &String, object_id: Option<&String>) -> (r: Vec<String>)
    ensures
        r.deep_view() == pwd_answer(
            cwd@,
            match object_id {
                Some(id) => Some(id@),
                None => None,
            },
        ),
{
    let mut r: Vec<String> = Vec::new();
    match object_id {
        Some(id) => {
            let mut line = "Object ID ".to_owned();
            line.append(id.as_str());
            r.push(line);
        },
        None => {},
    }
    r.push(cwd.clone());
    proof {
        assert(r.deep_view() =~= pwd_answer(
            cwd@,
            match object_id {
                Some(id) => Some(id@),
                None => None,
            },
        ));
    }
    r
}

/// What `pwd` prints in `cwd`, given whether `cwd` is an object root and, if
/// it is, the inventory found there.
pub open spec fn pwd_step_spec(cwd: Seq<char>, is_object: bool, inventory: Option<InventoryView>) -> Seq<
    Seq<char>,
> {
    pwd_answer(
        cwd,
        if is_object {
            Some(inventory.unwrap().id)
        } else {
            None
        },
    )
}

/// What `pwd` prints (see [`pwd_step_spec`]).
pub fn pwd_step(cwd: &String, is_object: bool, inventory: Option<&Inventory>) -> (r: Vec<String>)
    requires
        is_object ==> inventory is Some,
    ensures
        r.deep_view() == pwd_step_spec(cwd@, is_object, inventory_view(inventory)),
{
    if is_object {
        pwd_lines(cwd, Some(&inventory.unwrap().id))
    } else {
        pwd_lines(cwd, None)
    }
}

/// The message for an inventory whose head version is missing.
pub fn missing_head_message(inventory: &Inventory) -> (r: String)
    ensures
        r@ == missing_head_spec(inventory@),
{
    let mut m = "Version ".to_owned();
    m.append(inventory.head.as_str());
    m.append(" missing from inventory json for id ");
    m.append(inventory.id.as_str());
    m
}

/// Whether `inventory` holds its head version.
pub(crate) fn head_present(inventory: &Inventory) -> (r: bool)
    requires
        inventory.wf(),
    ensures
        r == has_head(inventory@),
{
    match Ocfl::version_named(inventory, &inventory.head) {
        Some(_) => true,
        None => false,
    }
}

/// The head version of `inventory`, or the message for a missing one.
pub fn head_or_error(inventory: &Inventory) -> (r: Result<Version, String>)
    requires
        inventory.wf(),
    ensures
        match r {
            Ok(v) => has_head(inventory@) && v@ == head_of(inventory@),
            Err(m) => !has_head(inventory@) && m@ == missing_head_spec(inventory@),
        },
{
    match Ocfl::version_named(inventory, &inventory.head) {
        Some(v) => Ok(v),
        None => Err(missing_head_message(inventory)),
    }
}

/// The shell's command processor over a repository.
pub struct Process<O: OcflApi> {
    pub ocfl: O,
    pub interrupt: Interrupt,
}

impl<O: OcflApi> Process<O> {
    /// A processor over `ocfl` that polls `interrupt`.
    pub fn new(ocfl: O, interrupt: Interrupt) -> (r: Process<O>)
        ensures
            r.ocfl == ocfl,
            r.interrupt == interrupt,
    {
        Process { ocfl, interrupt }
    }

    /// Starts processing the command line `input`: lowers the interrupt flag
    /// and returns the stages to run and whether the shell goes on.
    pub fn process(&mut self, input: &str) -> (r: Plan)
        ensures
            r@ == plan_of(input@),
    {
        clear_interrupt(&self.interrupt);
        if input.is_empty() {
            let stages: Vec<Stage> = Vec::new();
            assert(stages.deep_view() =~= Seq::<StageView>::empty());
            return Plan { stages, control: ShellControl::Continue };
        }
        let line = trim(input);
        let (stages, exit) = plan_stages(line.as_str());
        Plan {
            stages,
            control: if exit {
                ShellControl::Exit
            } else {
                ShellControl::Continue
            },
        }
    }

    /// What `versions` prints in `cwd`: the repository's answer.
    pub fn run_versions(&mut self, cwd: &String) -> Result<Vec<String>, String> {
        self.ocfl.list_versions(cwd)
    }
}

} // verus!
