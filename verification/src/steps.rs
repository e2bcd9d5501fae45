//! The built-in commands `ls`, `cd` and `pwd` as step functions: given the
//! command's arguments and what the repository has answered so far, each
//! either asks the repository its next question or gives the command's
//! answer. Whoever holds the repository asks the question, records the answer
//! and steps again.

use crate::ocfl::{copy_strings, Inventory, InventoryView, has_head};
use crate::process::{
    cd_action, cd_action_spec, cd_plan, cd_plan_spec, head_present, listing_result,
    ls_listing, ls_listing_spec, ls_plan, ls_plan_spec, pwd_step, pwd_step_spec, CdAction,
    CdActionView, CdPlan, Listing, ListingView, LsPlan, LsPlanView,
};
use vstd::prelude::*;

verus! {

/// A question for the repository (see [`crate::ocfl::OcflApi`]).
pub enum RepoRequest {
    /// Is this directory an object root?
    IsObjectRoot(String),
    /// Is this directory the repository root?
    IsRepositoryRoot(String),
    /// The inventory of the object rooted at this directory.
    LoadInventory(String),
    /// The inventories of all objects.
    ListObjects,
    /// The path of the object with this identifier.
    PathForId(String),
    /// These arguments, with a logical path resolved, for a command run in
    /// this directory.
    ResolveArgs(String, Vec<String>),
    /// The repository root.
    OcflRoot,
}

/// The mathematical value of a [`RepoRequest`].
pub enum RepoRequestView {
    IsObjectRoot(Seq<char>),
    IsRepositoryRoot(Seq<char>),
    LoadInventory(Seq<char>),
    ListObjects,
    PathForId(Seq<char>),
    ResolveArgs(Seq<char>, Seq<Seq<char>>),
    OcflRoot,
}

impl View for RepoRequest {
    type V = RepoRequestView;

    open spec fn view(&self) -> RepoRequestView {
        match self {
            RepoRequest::IsObjectRoot(p) => RepoRequestView::IsObjectRoot(p@),
            RepoRequest::IsRepositoryRoot(p) => RepoRequestView::IsRepositoryRoot(p@),
            RepoRequest::LoadInventory(p) => RepoRequestView::LoadInventory(p@),
            RepoRequest::ListObjects => RepoRequestView::ListObjects,
            RepoRequest::PathForId(id) => RepoRequestView::PathForId(id@),
            RepoRequest::ResolveArgs(p, a) => RepoRequestView::ResolveArgs(p@, a.deep_view()),
            RepoRequest::OcflRoot => RepoRequestView::OcflRoot,
        }
    }
}

/// What the repository has answered `ls` so far.
pub struct LsAnswers {
    pub object_root: Option<bool>,
    pub repository_root: Option<bool>,
    pub inventory: Option<Inventory>,
    pub objects: Option<Vec<Inventory>>,
    pub object_path: Option<String>,
    pub resolved: Option<Vec<String>>,
}

/// The mathematical value of [`LsAnswers`].
pub struct LsAnswersView {
    pub object_root: Option<bool>,
    pub repository_root: Option<bool>,
    pub inventory: Option<InventoryView>,
    pub objects: Option<Seq<Inventory>>,
    pub object_path: Option<Seq<char>>,
    pub resolved: Option<Seq<Seq<char>>>,
}

impl View for LsAnswers {
    type V = LsAnswersView;

    open spec fn view(&self) -> LsAnswersView {
        LsAnswersView {
            object_root: self.object_root,
            repository_root: self.repository_root,
            inventory: match self.inventory {
                Some(i) => Some(i@),
                None => None,
            },
            objects: match self.objects {
                Some(o) => Some(o@),
                None => None,
            },
            object_path: match self.object_path {
                Some(p) => Some(p@),
                None => None,
            },
            resolved: match self.resolved {
                Some(a) => Some(a.deep_view()),
                None => None,
            },
        }
    }
}

/// The next step of `ls`.
pub enum LsNext {
    /// Ask the repository this.
    Ask(RepoRequest),
    /// The command's answer.
    Done(Result<Listing, String>),
}

/// The mathematical value of an [`LsNext`].
pub enum LsNextView {
    Ask(RepoRequestView),
    Done(Result<ListingView, Seq<char>>),
}

impl View for LsNext {
    type V = LsNextView;

    open spec fn view(&self) -> LsNextView {
        match self {
            LsNext::Ask(q) => LsNextView::Ask(q@),
            LsNext::Done(r) => LsNextView::Done(listing_result(*r)),
        }
    }
}

/// Whether `cwd` is the repository root, as far as `ls` needs to know: it is
/// asked only outside an object root.
pub open spec fn ls_repository_root(a: LsAnswersView) -> bool {
    if a.object_root == Some(true) {
        false
    } else {
        a.repository_root == Some(true)
    }
}

/// The next step of `ls` in `cwd` with arguments `args`, given the answers so
/// far. First whether `cwd` is an object root, then, outside one, whether it
/// is the repository root; that picks the listing ([`ls_plan_spec`]). The
/// object's own paths need the inventory of `cwd`; a file's size needs that
/// inventory and, when it has its head version, the arguments resolved in
/// `cwd`; all objects need the object list; another object's paths need its
/// path for the last argument, then the inventory there. With all that, the
/// answer is [`ls_listing_spec`] of it.
pub open spec fn ls_next_spec(cwd: Seq<char>, args: Seq<Seq<char>>, a: LsAnswersView) -> LsNextView {
    if a.object_root is None {
        LsNextView::Ask(RepoRequestView::IsObjectRoot(cwd))
    } else if a.object_root == Some(false) && a.repository_root is None {
        LsNextView::Ask(RepoRequestView::IsRepositoryRoot(cwd))
    } else {
        let plan = ls_plan_spec(a.object_root == Some(true), ls_repository_root(a), args);
        match plan {
            LsPlanView::HeadState => if a.inventory is None {
                LsNextView::Ask(RepoRequestView::LoadInventory(cwd))
            } else {
                LsNextView::Done(ls_listing_spec(plan, a.objects, a.inventory, a.resolved))
            },
            LsPlanView::FileSize => if a.inventory is None {
                LsNextView::Ask(RepoRequestView::LoadInventory(cwd))
            } else if has_head(a.inventory.unwrap()) && a.resolved is None {
                LsNextView::Ask(RepoRequestView::ResolveArgs(cwd, args))
            } else {
                LsNextView::Done(ls_listing_spec(plan, a.objects, a.inventory, a.resolved))
            },
            LsPlanView::AllObjects => if a.objects is None {
                LsNextView::Ask(RepoRequestView::ListObjects)
            } else {
                LsNextView::Done(ls_listing_spec(plan, a.objects, a.inventory, a.resolved))
            },
            LsPlanView::ObjectState(id) => if a.object_path is None {
                LsNextView::Ask(RepoRequestView::PathForId(id))
            } else if a.inventory is None {
                LsNextView::Ask(RepoRequestView::LoadInventory(a.object_path.unwrap()))
            } else {
                LsNextView::Done(ls_listing_spec(plan, a.objects, a.inventory, a.resolved))
            },
            LsPlanView::NothingToDo => LsNextView::Done(
                ls_listing_spec(plan, a.objects, a.inventory, a.resolved),
            ),
        }
    }
}

/// The next step of `ls` (see [`ls_next_spec`]).
pub fn ls_next(cwd: &String, args: &Vec<String>, answers: &LsAnswers) -> (r: LsNext)
    requires
        answers.inventory matches Some(inv) ==> inv.wf(),
    ensures
        r@ == ls_next_spec(cwd@, args.deep_view(), answers@),
{
    let object_root = match answers.object_root {
        None => {
            return LsNext::Ask(RepoRequest::IsObjectRoot(cwd.clone()));
        },
        Some(o) => o,
    };
    let repository_root = if object_root {
        false
    } else {
        match answers.repository_root {
            None => {
                return LsNext::Ask(RepoRequest::IsRepositoryRoot(cwd.clone()));
            },
            Some(r) => r,
        }
    };
    let plan = ls_plan(object_root, repository_root, args);
    let ghost pv = plan@;
    let ghost av = answers@;
    assert(pv == ls_plan_spec(av.object_root == Some(true), ls_repository_root(av), args.deep_view()));
    match &plan {
        LsPlan::HeadState => match &answers.inventory {
            None => LsNext::Ask(RepoRequest::LoadInventory(cwd.clone())),
            Some(inv) => {
                let r = ls_listing(&plan, None, Some(inv), None);
                assert(listing_result(r) == ls_listing_spec(pv, av.objects, av.inventory, av.resolved));
                LsNext::Done(r)
            },
        },
        LsPlan::FileSize => match &answers.inventory {
            None => LsNext::Ask(RepoRequest::LoadInventory(cwd.clone())),
            Some(inv) => {
                if head_present(inv) {
                    match &answers.resolved {
                        None => LsNext::Ask(RepoRequest::ResolveArgs(cwd.clone(), copy_strings(args))),
                        Some(res) => {
                            let r = ls_listing(&plan, None, Some(inv), Some(res));
                            assert(listing_result(r) == ls_listing_spec(
                                pv,
                                av.objects,
                                av.inventory,
                                av.resolved,
                            ));
                            LsNext::Done(r)
                        },
                    }
                } else {
                    let r = ls_listing(&plan, None, Some(inv), None);
                    assert(listing_result(r) == ls_listing_spec(
                        pv,
                        av.objects,
                        av.inventory,
                        av.resolved,
                    ));
                    LsNext::Done(r)
                }
            },
        },
        LsPlan::AllObjects => match &answers.objects {
            None => LsNext::Ask(RepoRequest::ListObjects),
            Some(objects) => {
                let r = ls_listing(&plan, Some(objects), None, None);
                assert(listing_result(r) == ls_listing_spec(pv, av.objects, av.inventory, av.resolved));
                LsNext::Done(r)
            },
        },
        LsPlan::ObjectState(id) => match &answers.object_path {
            None => LsNext::Ask(RepoRequest::PathForId(id.clone())),
            Some(path) => match &answers.inventory {
                None => LsNext::Ask(RepoRequest::LoadInventory(path.clone())),
                Some(inv) => {
                    let r = ls_listing(&plan, None, Some(inv), None);
                    assert(listing_result(r) == ls_listing_spec(
                        pv,
                        av.objects,
                        av.inventory,
                        av.resolved,
                    ));
                    LsNext::Done(r)
                },
            },
        },
        LsPlan::NothingToDo => {
            let r = ls_listing(&plan, None, None, None);
            assert(listing_result(r) == ls_listing_spec(pv, av.objects, av.inventory, av.resolved));
            LsNext::Done(r)
        },
    }
}

/// When `ls` is done, its answer is [`ls_listing_spec`] of the listing that
/// the repository's answers on `cwd` pick and of the answers it gave; in
/// particular, at the repository root without arguments it lists the
/// identifiers of the objects the repository listed, and outside any root it
/// answers "Nothing to do".
pub proof fn lemma_ls_done(cwd: Seq<char>, args: Seq<Seq<char>>, a: LsAnswersView)
    requires
        ls_next_spec(cwd, args, a) is Done,
    ensures
        a.object_root is Some,
        a.object_root == Some(false) ==> a.repository_root is Some,
        ls_next_spec(cwd, args, a) == LsNextView::Done(
            ls_listing_spec(
                ls_plan_spec(a.object_root == Some(true), ls_repository_root(a), args),
                a.objects,
                a.inventory,
                a.resolved,
            ),
        ),
        a.object_root == Some(false) && a.repository_root == Some(true) && args.len() == 0
            ==> ls_next_spec(cwd, args, a) == LsNextView::Done(
            Ok(ListingView::Lines(a.objects.unwrap().map_values(|inv: Inventory| inv.id@))),
        ),
        a.object_root == Some(false) && a.repository_root == Some(false) ==> ls_next_spec(
            cwd,
            args,
            a,
        ) == LsNextView::Done(Ok(ListingView::Lines(seq!["Nothing to do"@]))),
{
}

/// What the repository has answered `cd` so far.
pub struct CdAnswers {
    pub repository_root: Option<bool>,
    pub object_root: Option<bool>,
    pub id_path: Option<String>,
    pub root: Option<String>,
}

/// The mathematical value of [`CdAnswers`].
pub struct CdAnswersView {
    pub repository_root: Option<bool>,
    pub object_root: Option<bool>,
    pub id_path: Option<Seq<char>>,
    pub root: Option<Seq<char>>,
}

impl View for CdAnswers {
    type V = CdAnswersView;

    open spec fn view(&self) -> CdAnswersView {
        CdAnswersView {
            repository_root: self.repository_root,
            object_root: self.object_root,
            id_path: match self.id_path {
                Some(p) => Some(p@),
                None => None,
            },
            root: match self.root {
                Some(p) => Some(p@),
                None => None,
            },
        }
    }
}

/// The next step of `cd`.
pub enum CdNext {
    /// Ask the repository this.
    Ask(RepoRequest),
    /// Where `cd` goes.
    Done(CdAction),
}

/// The mathematical value of a [`CdNext`].
pub enum CdNextView {
    Ask(RepoRequestView),
    Done(CdActionView),
}

impl View for CdNext {
    type V = CdNextView;

    open spec fn view(&self) -> CdNextView {
        match self {
            CdNext::Ask(q) => CdNextView::Ask(q@),
            CdNext::Done(a) => CdNextView::Done(a@),
        }
    }
}

/// Whether `cwd` is an object root, as far as `cd` needs to know: it is asked
/// only outside the repository root and with arguments.
pub open spec fn cd_object_root(args: Seq<Seq<char>>, a: CdAnswersView) -> bool {
    a.repository_root == Some(false) && args.len() > 0 && a.object_root == Some(true)
}

/// The next step of `cd` in `cwd` with arguments `args`, given the answers so
/// far. First whether `cwd` is the repository root, then, outside it and with
/// arguments, whether it is an object root; that picks the way
/// ([`cd_plan_spec`]). Into an object with arguments needs the path of the
/// object that the first argument identifies; into an object without
/// arguments, or back to the root, needs the repository root. With that, the
/// action is [`cd_action_spec`] of it.
pub open spec fn cd_next_spec(cwd: Seq<char>, args: Seq<Seq<char>>, a: CdAnswersView) -> CdNextView {
    if a.repository_root is None {
        CdNextView::Ask(RepoRequestView::IsRepositoryRoot(cwd))
    } else if a.repository_root == Some(false) && args.len() > 0 && a.object_root is None {
        CdNextView::Ask(RepoRequestView::IsObjectRoot(cwd))
    } else {
        let plan = cd_plan_spec(a.repository_root == Some(true), cd_object_root(args, a), args);
        if plan == CdPlan::IntoObject && args.len() > 0 && a.id_path is None {
            CdNextView::Ask(RepoRequestView::PathForId(args[0]))
        } else if (plan == CdPlan::ToRoot || (plan == CdPlan::IntoObject && args.len() == 0))
            && a.root is None {
            CdNextView::Ask(RepoRequestView::OcflRoot)
        } else {
            CdNextView::Done(
                cd_action_spec(
                    plan,
                    a.id_path,
                    match a.root {
                        Some(r) => r,
                        None => Seq::empty(),
                    },
                    args,
                ),
            )
        }
    }
}

/// The next step of `cd` (see [`cd_next_spec`]).
pub fn cd_next(cwd: &String, args: &Vec<String>, answers: &CdAnswers) -> (r: CdNext)
    ensures
        r@ == cd_next_spec(cwd@, args.deep_view(), answers@),
{
    let repository_root = match answers.repository_root {
        None => {
            return CdNext::Ask(RepoRequest::IsRepositoryRoot(cwd.clone()));
        },
        Some(r) => r,
    };
    let object_root = if !repository_root && args.len() > 0 {
        match answers.object_root {
            None => {
                return CdNext::Ask(RepoRequest::IsObjectRoot(cwd.clone()));
            },
            Some(o) => o,
        }
    } else {
        false
    };
    let plan = cd_plan(repository_root, object_root, args);
    let into_object = match plan {
        CdPlan::IntoObject => true,
        _ => false,
    };
    let to_root = match plan {
        CdPlan::ToRoot => true,
        _ => false,
    };
    if into_object && args.len() > 0 && answers.id_path.is_none() {
        assert(args.deep_view()[0] == args@[0]@);
        return CdNext::Ask(RepoRequest::PathForId(args[0].clone()));
    }
    if (to_root || (into_object && args.len() == 0)) && answers.root.is_none() {
        return CdNext::Ask(RepoRequest::OcflRoot);
    }
    let id_path = match &answers.id_path {
        Some(p) => Some(p.clone()),
        None => None,
    };
    let root = match &answers.root {
        Some(r) => r.clone(),
        None => String::new(),
    };
    let action = cd_action(plan, id_path, &root, args);
    CdNext::Done(action)
}

/// When `cd` is done, its action is [`cd_action_spec`] of the way that the
/// repository's answers on `cwd` pick: in the repository root, a probe of the
/// path the repository gave for the first argument (or of the root, without
/// arguments); in an object root with a last argument `..`, the repository
/// root; otherwise the last argument.
pub proof fn lemma_cd_done(cwd: Seq<char>, args: Seq<Seq<char>>, a: CdAnswersView)
    requires
        cd_next_spec(cwd, args, a) is Done,
    ensures
        a.repository_root is Some,
        a.repository_root == Some(true) && args.len() > 0 ==> cd_next_spec(cwd, args, a)
            == CdNextView::Done(
            CdActionView::Probe {
                target: a.id_path.unwrap(),
                fallback: Some(args.last()),
            },
        ),
        a.repository_root == Some(false) && args.len() > 0 && a.object_root == Some(true)
            && args.last() == ".."@ ==> cd_next_spec(cwd, args, a) == CdNextView::Done(
            CdActionView::Enter(a.root.unwrap()),
        ),
        a.repository_root == Some(false) && !(args.len() > 0 && a.object_root == Some(true)
            && args.last() == ".."@) ==> cd_next_spec(cwd, args, a) == CdNextView::Done(
            CdActionView::Fallback(if args.len() > 0 { Some(args.last()) } else { None }),
        ),
{
}

/// What the repository has answered `pwd` so far.
pub struct PwdAnswers {
    pub object_root: Option<bool>,
    pub inventory: Option<Inventory>,
}

/// The next step of `pwd`.
pub enum PwdNext {
    /// Ask the repository this.
    Ask(RepoRequest),
    /// The lines `pwd` prints.
    Done(Vec<String>),
}

/// The mathematical value of a [`PwdNext`].
pub enum PwdNextView {
    Ask(RepoRequestView),
    Done(Seq<Seq<char>>),
}

impl View for PwdNext {
    type V = PwdNextView;

    open spec fn view(&self) -> PwdNextView {
        match self {
            PwdNext::Ask(q) => PwdNextView::Ask(q@),
            PwdNext::Done(l) => PwdNextView::Done(l.deep_view()),
        }
    }
}

/// The next step of `pwd` in `cwd`, given whether `cwd` is an object root and
/// the inventory there, as far as answered: first whether `cwd` is an object
/// root; in one, the inventory of `cwd`; then the lines are
/// [`pwd_step_spec`] of those answers.
pub open spec fn pwd_next_spec(cwd: Seq<char>, object_root: Option<bool>, inventory: Option<InventoryView>) -> PwdNextView {
    match object_root {
        None => PwdNextView::Ask(RepoRequestView::IsObjectRoot(cwd)),
        Some(o) => if o && inventory is None {
            PwdNextView::Ask(RepoRequestView::LoadInventory(cwd))
        } else {
            PwdNextView::Done(pwd_step_spec(cwd, o, inventory))
        },
    }
}

/// The next step of `pwd` (see [`pwd_next_spec`]).
pub fn pwd_next(cwd: &String, answers: &PwdAnswers) -> (r: PwdNext)
    ensures
        r@ == pwd_next_spec(
            cwd@,
            answers.object_root,
            match answers.inventory {
                Some(i) => Some(i@),
                None => None,
            },
        ),
{
    match answers.object_root {
        None => PwdNext::Ask(RepoRequest::IsObjectRoot(cwd.clone())),
        Some(o) => match &answers.inventory {
            None => if o {
                PwdNext::Ask(RepoRequest::LoadInventory(cwd.clone()))
            } else {
                PwdNext::Done(pwd_step(cwd, false, None))
            },
            Some(inv) => PwdNext::Done(pwd_step(cwd, o, Some(inv))),
        },
    }
}

/// When `pwd` is done in an object root, it prints `Object ID` and the
/// identifier of the inventory loaded from `cwd`, then `cwd`; elsewhere `cwd`
/// alone.
pub proof fn lemma_pwd_done(cwd: Seq<char>, object_root: Option<bool>, inventory: Option<InventoryView>)
    requires
        pwd_next_spec(cwd, object_root, inventory) is Done,
    ensures
        object_root == Some(true) ==> pwd_next_spec(cwd, object_root, inventory)
            == PwdNextView::Done(seq!["Object ID "@ + inventory.unwrap().id, cwd]),
        object_root == Some(false) ==> pwd_next_spec(cwd, object_root, inventory)
            == PwdNextView::Done(seq![cwd]),
{
}

} // verus!
