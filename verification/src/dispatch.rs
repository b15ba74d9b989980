//! Module stack dispatch (Linux-PAM `_pam_dispatch` semantics).
//!
//! A stack run alternates two kinds of work: invoking a module (outside
//! work, done by the caller) and deciding what its return value means for
//! the stack.  The decisions live here as a state machine: the caller
//! invokes the module at [`StackRun::index`], reports its return value, and
//! follows the [`Step`] it gets back.

use vstd::prelude::*;

use crate::config::{
    control_action, control_table, ControlFlag, EntryView, GlobalConfig, ModuleEntry, ServiceConfig,
    spec_stack_for,
};
use crate::constants::{
    PAM_IGNORE, PAM_INCOMPLETE, PAM_NEW_AUTHTOK_REQD, PAM_PERM_DENIED, PAM_RETURN_VALUES,
    PAM_SUCCESS,
};
use crate::error::{error_status, PamError, PamResult, PamStatus};
use crate::text::{decimal, push_decimal, push_str};
use crate::types::{Action, StackKind};

verus! {

/// Overall impression of a stack so far.
#[derive(Debug, Clone, Copy, PartialEq, Eq, Structural)]
pub enum Impression {
    /// No module has decided anything yet.
    Undef,
    /// The stack is heading for success.
    Positive,
    /// The stack has failed.
    Negative,
}

/// What the stack does after a module's result has been applied.
#[derive(Debug, Clone, Copy, PartialEq, Eq, Structural)]
pub enum ControlFlow {
    /// Go on with the next module.
    Continue,
    /// Stop; the stack's outcome follows from the impression.
    Done,
    /// Stop immediately with the current status.
    Die,
}

/// The action that a table gives for a return value; codes outside the
/// table are treated as failures.
pub open spec fn spec_action_for(actions: Seq<Action>, retval: i32) -> Action {
    if 0 <= retval < PAM_RETURN_VALUES {
        actions[retval as int]
    } else {
        Action::Bad
    }
}

/// The status recorded for a failure: a success code counts as "permission
/// denied".
pub open spec fn fail_status(retval: i32) -> i32 {
    if retval == PAM_SUCCESS {
        PAM_PERM_DENIED
    } else {
        retval
    }
}

/// The effect of one action on the impression and the status.
pub open spec fn apply_spec(action: Action, retval: i32, imp: Impression, status: i32) -> (
    Impression,
    i32,
    ControlFlow,
) {
    match action {
        Action::Ignore => (imp, status, ControlFlow::Continue),
        Action::Okay => if imp == Impression::Undef {
            (Impression::Positive, retval, ControlFlow::Continue)
        } else if imp == Impression::Positive && status == PAM_SUCCESS && retval
            == PAM_NEW_AUTHTOK_REQD {
            (imp, PAM_NEW_AUTHTOK_REQD, ControlFlow::Continue)
        } else {
            (imp, status, ControlFlow::Continue)
        },
        Action::Done => if imp != Impression::Negative {
            (Impression::Positive, retval, ControlFlow::Done)
        } else {
            (imp, status, ControlFlow::Continue)
        },
        Action::Bad => if imp != Impression::Negative {
            (Impression::Negative, fail_status(retval), ControlFlow::Continue)
        } else {
            (imp, status, ControlFlow::Continue)
        },
        Action::Die => (Impression::Negative, fail_status(retval), ControlFlow::Die),
        Action::Reset => (Impression::Undef, PAM_PERM_DENIED, ControlFlow::Continue),
        Action::Jump(_) => (imp, status, ControlFlow::Continue),
    }
}

/// The final status of a top-level stack: a positive impression succeeds
/// (keeping "new token required"), a negative one fails with its status,
/// and an undecided stack is denied.
pub open spec fn stack_outcome(imp: Impression, status: i32) -> i32 {
    match imp {
        Impression::Positive => if status == PAM_NEW_AUTHTOK_REQD {
            PAM_NEW_AUTHTOK_REQD
        } else {
            PAM_SUCCESS
        },
        Impression::Negative => status,
        Impression::Undef => PAM_PERM_DENIED,
    }
}

/// The final status of a substack: like [`stack_outcome`], except that a
/// positive impression is plain success.
pub open spec fn substack_outcome(imp: Impression, status: i32) -> i32 {
    match imp {
        Impression::Positive => PAM_SUCCESS,
        Impression::Negative => status,
        Impression::Undef => PAM_PERM_DENIED,
    }
}

/// Look up the action for a module's return value.
pub fn action_for(actions: &[Action; PAM_RETURN_VALUES], retval: i32) -> (r: Action)
    ensures
        r == spec_action_for(actions@, retval),
{
    if retval >= 0 && (retval as usize) < PAM_RETURN_VALUES {
        actions[retval as usize]
    } else {
        Action::Bad
    }
}

/// Apply one action to the impression and status.
pub fn apply_action(
    action: Action,
    retval: i32,
    impression: &mut Impression,
    status: &mut i32,
) -> (r: ControlFlow)
    ensures
        (*final(impression), *final(status), r) == apply_spec(
            action,
            retval,
            *old(impression),
            *old(status),
        ),
{
    match action {
        Action::Ignore => ControlFlow::Continue,
        Action::Okay => {
            if *impression == Impression::Undef {
                *impression = Impression::Positive;
                *status = retval;
            } else if *impression == Impression::Positive && *status == PAM_SUCCESS && retval
                == PAM_NEW_AUTHTOK_REQD {
                *status = PAM_NEW_AUTHTOK_REQD;
            }
            ControlFlow::Continue
        },
        Action::Done => {
            if *impression != Impression::Negative {
                *impression = Impression::Positive;
                *status = retval;
                return ControlFlow::Done;
            }
            ControlFlow::Continue
        },
        Action::Bad => {
            if *impression != Impression::Negative {
                *impression = Impression::Negative;
                *status = if retval == PAM_SUCCESS {
                    PAM_PERM_DENIED
                } else {
                    retval
                };
            }
            ControlFlow::Continue
        },
        Action::Die => {
            *impression = Impression::Negative;
            *status = if retval == PAM_SUCCESS {
                PAM_PERM_DENIED
            } else {
                retval
            };
            ControlFlow::Die
        },
        Action::Reset => {
            *impression = Impression::Undef;
            *status = PAM_PERM_DENIED;
            ControlFlow::Continue
        },
        Action::Jump(_) => ControlFlow::Continue,
    }
}

/// What the caller does next in a stack run.
#[derive(Debug, Clone, Copy, PartialEq, Eq, Structural)]
pub enum Step {
    /// Invoke the module at the run's new index (if any remain).
    Continue,
    /// Leave the loop; the stack's status is [`StackRun::outcome`].
    Finish,
    /// Return this status at once.
    Stop(i32),
    /// Return `PAM_INCOMPLETE` at once.
    Incomplete,
}

/// State of one run over a top-level stack.
pub struct StackRun {
    /// Impression so far.
    pub impression: Impression,
    /// Status so far.
    pub status: i32,
    /// Index of the next entry to run.
    pub index: usize,
    /// Return value recorded for each entry run so far.
    pub cache: Vec<i32>,
}

/// The index after a module's action: a jump moves forward by its count
/// (saturating), anything else to the next entry.
pub open spec fn next_index(index: usize, action: Action) -> usize {
    match action {
        Action::Jump(n) => if index + n > usize::MAX {
            usize::MAX
        } else {
            (index + n) as usize
        },
        _ => (index + 1) as usize,
    }
}

impl StackRun {
    /// A run that has not started.
    pub fn new() -> (r: Self)
        ensures
            r.impression == Impression::Undef,
            r.status == PAM_PERM_DENIED,
            r.index == 0,
            r.cache@.len() == 0,
    {
        StackRun {
            impression: Impression::Undef,
            status: PAM_PERM_DENIED,
            index: 0,
            cache: Vec::new(),
        }
    }

    /// The module at `index`, with action table `actions`, returned
    /// `retval`.
    pub fn module_returned(&mut self, actions: &[Action; PAM_RETURN_VALUES], retval: i32) -> (r:
        Step)
        requires
            old(self).index < usize::MAX,
        ensures
            final(self).cache@ == old(self).cache@.push(retval),
            retval == PAM_INCOMPLETE ==> {
                &&& r == Step::Incomplete
                &&& final(self).impression == old(self).impression
                &&& final(self).status == old(self).status
                &&& final(self).index == old(self).index
            },
            retval != PAM_INCOMPLETE ==> {
                let action = spec_action_for(actions@, retval);
                let (imp, st, flow) = apply_spec(
                    action,
                    retval,
                    old(self).impression,
                    old(self).status,
                );
                &&& final(self).impression == imp
                &&& final(self).status == st
                &&& r == match flow {
                    ControlFlow::Continue => Step::Continue,
                    ControlFlow::Done => Step::Finish,
                    ControlFlow::Die => Step::Stop(st),
                }
                &&& final(self).index == if flow == ControlFlow::Continue {
                    next_index(old(self).index, action)
                } else {
                    old(self).index
                }
            },
    {
        self.cache.push(retval);
        if retval == PAM_INCOMPLETE {
            return Step::Incomplete;
        }
        let action = action_for(actions, retval);
        match apply_action(action, retval, &mut self.impression, &mut self.status) {
            ControlFlow::Continue => {
                if let Action::Jump(n) = action {
                    self.index = self.index.saturating_add(n as usize);
                } else {
                    self.index = self.index + 1;
                }
                Step::Continue
            },
            ControlFlow::Done => Step::Finish,
            ControlFlow::Die => Step::Stop(self.status),
        }
    }

    /// The substack at `index` finished with status `code`; its outcome
    /// counts like a single `required` module.
    pub fn substack_returned(&mut self, code: i32) -> (r: Step)
        requires
            old(self).index < usize::MAX,
        ensures
            ({
                let action = spec_action_for(control_table(ControlFlag::Required), code);
                let (imp, st, flow) = apply_spec(
                    action,
                    code,
                    old(self).impression,
                    old(self).status,
                );
                &&& final(self).impression == imp
                &&& final(self).status == st
                &&& flow == ControlFlow::Continue ==> {
                    &&& r == Step::Continue
                    &&& final(self).cache@ == old(self).cache@.push(PAM_SUCCESS)
                    &&& final(self).index == old(self).index + 1
                }
                &&& flow == ControlFlow::Done ==> {
                    &&& r == Step::Finish
                    &&& final(self).cache@ == old(self).cache@.push(code)
                    &&& final(self).index == old(self).index
                }
                &&& flow == ControlFlow::Die ==> {
                    &&& r == Step::Stop(st)
                    &&& final(self).cache@ == old(self).cache@.push(code)
                    &&& final(self).index == old(self).index
                }
            }),
    {
        let act = ControlFlag::Required.actions();
        let action = action_for(&act, code);
        match apply_action(action, code, &mut self.impression, &mut self.status) {
            ControlFlow::Continue => {
                self.cache.push(PAM_SUCCESS);
                self.index = self.index + 1;
                Step::Continue
            },
            ControlFlow::Done => {
                self.cache.push(code);
                Step::Finish
            },
            ControlFlow::Die => {
                self.cache.push(code);
                Step::Stop(self.status)
            },
        }
    }

    /// The substack at `index` could not be loaded and is optional: it is
    /// skipped.
    pub fn substack_skipped(&mut self) -> (r: Step)
        requires
            old(self).index < usize::MAX,
        ensures
            r == Step::Continue,
            final(self).impression == old(self).impression,
            final(self).status == old(self).status,
            final(self).cache@ == old(self).cache@.push(PAM_SUCCESS),
            final(self).index == old(self).index + 1,
    {
        self.cache.push(PAM_SUCCESS);
        self.index = self.index + 1;
        Step::Continue
    }

    /// The stack's status once the run has left its loop.
    pub fn outcome(&self) -> (r: i32)
        ensures
            r == stack_outcome(self.impression, self.status),
    {
        match self.impression {
            Impression::Positive => {
                if self.status == PAM_NEW_AUTHTOK_REQD {
                    PAM_NEW_AUTHTOK_REQD
                } else {
                    PAM_SUCCESS
                }
            },
            Impression::Negative => self.status,
            Impression::Undef => PAM_PERM_DENIED,
        }
    }
}

/// State of one isolated run over a substack's entries.
pub struct SubstackRun {
    /// Impression so far.
    pub impression: Impression,
    /// Status so far.
    pub status: i32,
}

impl SubstackRun {
    /// A run that has not started.
    pub fn new() -> (r: Self)
        ensures
            r.impression == Impression::Undef,
            r.status == PAM_PERM_DENIED,
    {
        SubstackRun { impression: Impression::Undef, status: PAM_PERM_DENIED }
    }

    /// A module of the substack, with action table `actions`, returned
    /// `retval`; jumps are not followed inside a substack.
    pub fn module_returned(&mut self, actions: &[Action; PAM_RETURN_VALUES], retval: i32) -> (r:
        ControlFlow)
        ensures
            (final(self).impression, final(self).status, r) == apply_spec(
                spec_action_for(actions@, retval),
                retval,
                old(self).impression,
                old(self).status,
            ),
    {
        let action = action_for(actions, retval);
        apply_action(action, retval, &mut self.impression, &mut self.status)
    }

    /// The substack's status: success, the failure status, or denied.
    pub fn outcome(&self) -> (r: i32)
        ensures
            r == substack_outcome(self.impression, self.status),
    {
        match self.impression {
            Impression::Positive => PAM_SUCCESS,
            Impression::Negative => self.status,
            Impression::Undef => PAM_PERM_DENIED,
        }
    }
}

/// The return value that counts for a module invocation in a top-level
/// stack: its status, or for a failure to invoke it, `PAM_IGNORE` when the
/// entry is `optional_load` and the error's status otherwise.
pub fn module_retval(result: &PamResult<PamStatus>, optional_load: bool) -> (r: i32)
    ensures
        r == match result {
            Ok(s) => s.0,
            Err(e) => if optional_load {
                PAM_IGNORE
            } else {
                error_status(*e).0
            },
        },
{
    match result {
        Ok(s) => s.code(),
        Err(e) => {
            if optional_load {
                PAM_IGNORE
            } else {
                e.to_status().code()
            }
        },
    }
}

/// The return value that counts for a module invocation in a substack:
/// its status, or the error's status.
pub fn substack_retval(result: &PamResult<PamStatus>) -> (r: i32)
    ensures
        r == match result {
            Ok(s) => s.0,
            Err(e) => error_status(*e).0,
        },
{
    match result {
        Ok(s) => s.code(),
        Err(e) => e.to_status().code(),
    }
}

/// Whether an entry is run as a module (not `include` or `substack`).
pub fn dispatches_as_module(control: ControlFlag) -> (r: bool)
    ensures
        r == (control != ControlFlag::Include && control != ControlFlag::Substack),
{
    match control {
        ControlFlag::Include | ControlFlag::Substack => false,
        _ => true,
    }
}

/// Microseconds to sleep after a stack finished with `status`: nothing on
/// success, else the delay requested during the run or, if none was, the
/// configured one.  The requested delay is cleared either way.
pub fn fail_delay_usec(status: i32, requested: u32, configured: u32) -> (r: u32)
    ensures
        r == if status == PAM_SUCCESS {
            0
        } else if requested == 0 {
            configured
        } else {
            requested
        },
{
    if status == PAM_SUCCESS {
        return 0;
    }
    if requested == 0 {
        configured
    } else {
        requested
    }
}


// ---------------------------------------------------------------------------
// Splicing `include` entries
// ---------------------------------------------------------------------------

/// No entry of `v` is an `include`.
pub open spec fn no_includes(v: Seq<EntryView>) -> bool {
    forall|i: int| 0 <= i < v.len() ==> (#[trigger] v[i]).control != ControlFlag::Include
}

/// The views of a list of entries.
pub open spec fn entry_views(v: Seq<ModuleEntry>) -> Seq<EntryView> {
    v.map_values(|e: ModuleEntry| e@)
}

/// The error for an `include` nested too deep.
pub open spec fn depth_error_text(max_depth: u32, module: Seq<char>) -> Seq<char> {
    "include depth exceeded ("@ + decimal(max_depth as nat) + ") resolving '"@ + module + "'"@
}

fn depth_error(max_depth: u32, module: &str) -> (r: PamError)
    ensures
        r matches PamError::Config(m) && m@ == depth_error_text(max_depth, module@),
{
    let mut m = String::new();
    push_str(&mut m, "include depth exceeded (");
    push_decimal(&mut m, max_depth as u64);
    push_str(&mut m, ") resolving '");
    push_str(&mut m, module);
    push_str(&mut m, "'");
    PamError::Config(m)
}

/// What became of one entry's `include`.
#[derive(Debug)]
pub enum Included {
    /// Nothing was loaded for it (it is no `include`, is at the depth
    /// limit, or comes after an `include` that failed).
    Skipped,
    /// Loading its service failed with this error.
    LoadFailed(PamError),
    /// Its service loaded (the configuration that came back), with the
    /// stack of that service for the dispatch kind spliced one level
    /// deeper, or the error of that splicing.
    Loaded(ServiceConfig, Result<Vec<ModuleEntry>, PamError>),
}

/// What one entry contributes in place: a non-`include` entry itself; an
/// `include` at the depth limit nothing when optional and the depth error
/// (`Err(Ok(text))`) otherwise; below the limit the spliced stack of its
/// service, nothing for an optional one that failed to load (or was
/// skipped), and the error (`Err(Err(e))`) of a failed load of a required
/// one or of the nested splicing.
pub open spec fn include_piece(e: EntryView, o: Included, depth: u32, max: u32) -> Result<
    Seq<EntryView>,
    Result<Seq<char>, PamError>,
> {
    if e.control != ControlFlag::Include {
        Ok(seq![e])
    } else if depth >= max {
        if e.optional_load {
            Ok(Seq::empty())
        } else {
            Err(Ok(depth_error_text(max, e.module)))
        }
    } else {
        match o {
            Included::Skipped => Ok(Seq::empty()),
            Included::LoadFailed(err) => if e.optional_load {
                Ok(Seq::empty())
            } else {
                Err(Err(err))
            },
            Included::Loaded(_, Ok(v)) => Ok(entry_views(v@)),
            Included::Loaded(_, Err(err)) => Err(Err(err)),
        }
    }
}

/// The first `n` entries spliced in order: their pieces joined, or the
/// first error among them.
pub open spec fn splice_upto(
    es: Seq<EntryView>,
    os: Seq<Included>,
    n: nat,
    depth: u32,
    max: u32,
) -> Result<Seq<EntryView>, Result<Seq<char>, PamError>>
    decreases n,
{
    if n == 0 {
        Ok(Seq::empty())
    } else {
        match splice_upto(es, os, (n - 1) as nat, depth, max) {
            Err(x) => Err(x),
            Ok(v) => match include_piece(es[n - 1], os[n - 1], depth, max) {
                Ok(p) => Ok(v + p),
                Err(x) => Err(x),
            },
        }
    }
}

/// Whether `r` is what splicing the entries `es` with the outcomes `os`
/// gives: the joined pieces, or the first error (the depth error as
/// `PamError::Config`).
pub open spec fn splice_gives(
    es: Seq<EntryView>,
    os: Seq<Included>,
    depth: u32,
    max: u32,
    r: Result<Vec<ModuleEntry>, PamError>,
) -> bool {
    match splice_upto(es, os, es.len(), depth, max) {
        Ok(v) => r matches Ok(x) && entry_views(x@) == v,
        Err(Ok(m)) => r matches Err(PamError::Config(x)) && x@ == m,
        Err(Err(e)) => r == Err::<Vec<ModuleEntry>, PamError>(e),
    }
}

proof fn lemma_splice_err_stays(
    es: Seq<EntryView>,
    os: Seq<Included>,
    n: nat,
    m: nat,
    depth: u32,
    max: u32,
)
    requires
        n <= m,
        splice_upto(es, os, n, depth, max) is Err,
    ensures
        splice_upto(es, os, m, depth, max) == splice_upto(es, os, n, depth, max),
    decreases m,
{
    if m > n {
        lemma_splice_err_stays(es, os, n, (m - 1) as nat, depth, max);
    }
}

proof fn lemma_splice_no_includes(
    es: Seq<EntryView>,
    os: Seq<Included>,
    n: nat,
    depth: u32,
    max: u32,
)
    requires
        n <= es.len(),
        n <= os.len(),
        forall|i: int|
            0 <= i < os.len() ==> (#[trigger] os[i] matches Included::Loaded(_, Ok(v))
                ==> no_includes(entry_views(v@))),
    ensures
        splice_upto(es, os, n, depth, max) matches Ok(v) ==> no_includes(v),
    decreases n,
{
    if n > 0 {
        lemma_splice_no_includes(es, os, (n - 1) as nat, depth, max);
        let o = os[n - 1];
        match splice_upto(es, os, (n - 1) as nat, depth, max) {
            Ok(v) => match include_piece(es[n - 1], o, depth, max) {
                Ok(p) => {
                    assert(no_includes(p));
                    assert forall|k: int| 0 <= k < (v + p).len() implies (#[trigger] (v + p)[k]).control
                        != ControlFlag::Include by {
                        if k >= v.len() {
                            assert((v + p)[k] == p[k - v.len()]);
                        }
                    }
                },
                Err(_) => {},
            },
            Err(_) => {},
        }
    }
}

proof fn lemma_splice_unchanged(
    es: Seq<EntryView>,
    os: Seq<Included>,
    n: nat,
    depth: u32,
    max: u32,
)
    requires
        n <= es.len(),
        no_includes(es),
    ensures
        splice_upto(es, os, n, depth, max) == Ok::<Seq<EntryView>, Result<Seq<char>, PamError>>(
            es.take(n as int),
        ),
    decreases n,
{
    if n > 0 {
        lemma_splice_unchanged(es, os, (n - 1) as nat, depth, max);
        assert(es[n - 1].control != ControlFlag::Include);
        assert(es.take((n - 1) as int) + seq![es[n - 1]] =~= es.take(n as int));
    } else {
        assert(es.take(0) =~= Seq::<EntryView>::empty());
    }
}

/// Splice `include` entries in place, given what became of each one
/// (`outcomes[i]` for `entries[i]`): each entry contributes its
/// [`include_piece`], in order, and the first error ends the splicing.
pub fn splice_includes(
    global: &GlobalConfig,
    entries: &[ModuleEntry],
    outcomes: Vec<Included>,
    depth: u32,
) -> (r: Result<Vec<ModuleEntry>, PamError>)
    requires
        outcomes@.len() == entries@.len(),
    ensures
        splice_gives(
            entry_views(entries@),
            outcomes@,
            depth,
            global.security.max_include_depth,
            r,
        ),
{
    splice_at(global.security.max_include_depth, entries, outcomes, depth)
}

#[verifier::loop_isolation(false)]
fn splice_at(
    max_depth: u32,
    entries: &[ModuleEntry],
    outcomes: Vec<Included>,
    depth: u32,
) -> (r: Result<Vec<ModuleEntry>, PamError>)
    requires
        outcomes@.len() == entries@.len(),
    ensures
        splice_gives(
            entry_views(entries@),
            outcomes@,
            depth,
            max_depth,
            r,
        ),
{
    let ghost es = entry_views(entries@);
    let ghost os = outcomes@;
    let mut rest = outcomes;
    let mut out: Vec<ModuleEntry> = Vec::new();
    let mut i: usize = 0;
    assert(entry_views(out@) =~= Seq::<EntryView>::empty());
    while i < entries.len()
        invariant
            i <= entries@.len(),
            es == entry_views(entries@),
            os.len() == entries@.len(),
            rest@ == os.skip(i as int),
            splice_upto(es, os, i as nat, depth, max_depth) == Ok::<
                Seq<EntryView>,
                Result<Seq<char>, PamError>,
            >(entry_views(out@)),
        decreases entries@.len() - i,
    {
        let entry = &entries[i];
        assert(rest@[0] == os[i as int]);
        let o = rest.remove(0);
        assert(rest@ =~= os.skip(i + 1));
        assert(es[i as int] == entry@);
        let ghost prev = entry_views(out@);
        if entry.control != ControlFlag::Include {
            out.push(entry.clone());
            assert(entry_views(out@) =~= prev + seq![entry@]);
        } else if depth >= max_depth {
            if !entry.optional_load {
                proof {
                    assert(splice_upto(es, os, (i + 1) as nat, depth, max_depth) == Err::<
                        Seq<EntryView>,
                        Result<Seq<char>, PamError>,
                    >(Ok(depth_error_text(max_depth, entry.module@))));
                    lemma_splice_err_stays(es, os, (i + 1) as nat, es.len(), depth, max_depth);
                }
                return Err(depth_error(max_depth, entry.module.as_str()));
            }
            assert(prev + Seq::<EntryView>::empty() =~= prev);
        } else {
            match o {
                Included::Skipped => {
                    assert(prev + Seq::<EntryView>::empty() =~= prev);
                },
                Included::LoadFailed(err) => {
                    if !entry.optional_load {
                        proof {
                            assert(splice_upto(es, os, (i + 1) as nat, depth, max_depth) == Err::<
                                Seq<EntryView>,
                                Result<Seq<char>, PamError>,
                            >(Err(err)));
                            lemma_splice_err_stays(es, os, (i + 1) as nat, es.len(), depth, max_depth);
                        }
                        return Err(err);
                    }
                    assert(prev + Seq::<EntryView>::empty() =~= prev);
                },
                Included::Loaded(_, Ok(v)) => {
                    let mut v = v;
                    let ghost piece = entry_views(v@);
                    out.append(&mut v);
                    assert(entry_views(out@) =~= prev + piece);
                },
                Included::Loaded(_, Err(err)) => {
                    proof {
                        assert(splice_upto(es, os, (i + 1) as nat, depth, max_depth) == Err::<
                            Seq<EntryView>,
                            Result<Seq<char>, PamError>,
                        >(Err(err)));
                        lemma_splice_err_stays(es, os, (i + 1) as nat, es.len(), depth, max_depth);
                    }
                    return Err(err);
                },
            }
        }
        i += 1;
    }
    Ok(out)
}

/// Whether the outcome `o` of `e` ends the splicing: a required `include`
/// whose service failed to load, or an `include` whose own splicing failed.
pub open spec fn stops_at(e: EntryView, o: Included) -> bool {
    match o {
        Included::LoadFailed(_) => !e.optional_load,
        Included::Loaded(_, Err(_)) => true,
        _ => false,
    }
}

/// Whether `r` is what resolving the includes of `es` at `depth` gives,
/// for what the loads of their services gave: there are outcomes `os`,
/// one per entry, such that
/// - an entry that is no `include`, or stands at the depth limit, was
///   skipped;
/// - an `include` below the limit was skipped only after an earlier
///   outcome that ended the splicing, and otherwise was either a failed
///   load or a loaded service whose stack for `kind` resolves, one level
///   deeper, to what the outcome holds;
/// - `r` is what [`splice_includes`] gives for those outcomes.
pub open spec fn resolves_to(
    es: Seq<EntryView>,
    kind: StackKind,
    depth: u32,
    max: u32,
    r: Result<Vec<ModuleEntry>, PamError>,
) -> bool
    decreases max - depth,
{
    exists|os: Seq<Included>|
        #![trigger splice_gives(es, os, depth, max, r)]
        {
            &&& os.len() == es.len()
            &&& forall|i: int|
                0 <= i < os.len() && ((#[trigger] es[i]).control != ControlFlag::Include || depth
                    >= max) ==> os[i] is Skipped
            &&& forall|i: int|
                0 <= i < os.len() && (#[trigger] os[i]) is Skipped && es[i].control
                    == ControlFlag::Include && depth < max ==> exists|j: int|
                    0 <= j < i && #[trigger] stops_at(es[j], os[j])
            &&& forall|i: int|
                0 <= i < os.len() ==> match #[trigger] os[i] {
                    Included::Loaded(svc, sp) => depth < max && resolves_to(
                        entry_views(spec_stack_for(svc, kind)),
                        kind,
                        (depth + 1) as u32,
                        max,
                        sp,
                    ),
                    _ => true,
                }
            &&& splice_gives(es, os, depth, max, r)
        }
}

/// Whether the outcome `o` of `entry` ends the splicing.
fn stops_splicing(entry: &ModuleEntry, o: &Included) -> (r: bool)
    ensures
        r == stops_at(entry@, *o),
{
    match o {
        Included::LoadFailed(_) => !entry.optional_load,
        Included::Loaded(_, Err(_)) => true,
        _ => false,
    }
}

/// The stack under `depth`-deep splicing that one frame of an
/// [`IncludeRun`] works on, with the outcomes of its entries so far.
pub struct FrameView {
    /// The service whose stack this is; `None` for the stack the run
    /// started with.
    pub service: Option<ServiceConfig>,
    /// The entries of the stack.
    pub entries: Seq<EntryView>,
    /// The outcomes of its first entries, in order.
    pub done: Seq<Included>,
    /// Its depth of inclusion.
    pub depth: u32,
}

/// The state of an [`IncludeRun`]: the frames from the starting stack to
/// the innermost included one, whether a load is pending, the dispatch
/// kind and the depth limit.
pub struct RunView {
    pub frames: Seq<FrameView>,
    pub awaiting: bool,
    pub kind: StackKind,
    pub max: u32,
}

#[derive(Debug)]
struct IncludeFrame {
    service: Option<ServiceConfig>,
    entries: Vec<ModuleEntry>,
    done: Vec<Included>,
    depth: u32,
}

impl IncludeFrame {
    spec fn view_in(self, kind: StackKind) -> FrameView {
        FrameView {
            service: self.service,
            entries: match self.service {
                Some(s) => entry_views(spec_stack_for(s, kind)),
                None => entry_views(self.entries@),
            },
            done: self.done@,
            depth: self.depth,
        }
    }
}

spec fn frame_views(fs: Seq<IncludeFrame>, kind: StackKind) -> Seq<FrameView> {
    fs.map_values(|f: IncludeFrame| f.view_in(kind))
}

/// Splicing the `include` entries of a stack, one step at a time, so that
/// the caller loads each named service and hands back what came of it
/// (see [`IncludeRun::step`]).
#[derive(Debug)]
pub struct IncludeRun {
    frames: Vec<IncludeFrame>,
    awaiting: bool,
    kind: StackKind,
    max: u32,
}

impl View for IncludeRun {
    type V = RunView;

    closed spec fn view(&self) -> RunView {
        RunView {
            frames: frame_views(self.frames@, self.kind),
            awaiting: self.awaiting,
            kind: self.kind,
            max: self.max,
        }
    }
}

/// What a step of an [`IncludeRun`] asks for.
#[derive(Debug)]
pub enum IncludeProgress {
    /// Load the service of this name and hand back what came of it.
    Load(IncludeRun, String),
    /// Step again, with nothing to hand back.
    Continue(IncludeRun),
    /// Splicing is over, with this result.
    Finish(Result<Vec<ModuleEntry>, PamError>),
}

/// Whether some outcome of `f` ends its splicing.
pub open spec fn stopped(f: FrameView) -> bool {
    exists|j: int| 0 <= j < f.done.len() && #[trigger] stops_at(f.entries[j], f.done[j])
}

/// Whether the next entry of `f` is an `include` below the depth limit,
/// with nothing before it that ended the splicing: the entry whose service
/// is being loaded.
pub open spec fn pending(f: FrameView, max: u32) -> bool {
    &&& f.done.len() < f.entries.len()
    &&& f.entries[f.done.len() as int].control == ControlFlag::Include
    &&& f.depth < max
    &&& forall|j: int| 0 <= j < f.done.len() ==> !#[trigger] stops_at(f.entries[j], f.done[j])
}

/// The outcomes of `f` so far are as [`resolves_to`] asks of them.
#[verifier::opaque]
pub open spec fn frame_ok(f: FrameView, kind: StackKind, max: u32) -> bool {
    &&& f.done.len() <= f.entries.len()
    &&& forall|i: int|
        0 <= i < f.done.len() && ((#[trigger] f.entries[i]).control != ControlFlag::Include
            || f.depth >= max) ==> f.done[i] is Skipped
    &&& forall|i: int|
        0 <= i < f.done.len() && (#[trigger] f.done[i]) is Skipped && f.entries[i].control
            == ControlFlag::Include && f.depth < max ==> exists|j: int|
            0 <= j < i && #[trigger] stops_at(f.entries[j], f.done[j])
    &&& forall|i: int|
        0 <= i < f.done.len() ==> match #[trigger] f.done[i] {
            Included::Loaded(svc, sp) => f.depth < max && resolves_to(
                entry_views(spec_stack_for(svc, kind)),
                kind,
                (f.depth + 1) as u32,
                max,
                sp,
            ) && (sp matches Ok(v) ==> no_includes(entry_views(v@))),
            _ => true,
        }
}

/// What every state of an [`IncludeRun`] keeps: each frame's outcomes
/// are sound; each included frame holds the stack of a loaded service one
/// level below the `include` its parent is at; a pending load is for an
/// `include` below the limit.
#[verifier::opaque]
pub open spec fn run_ok(r: RunView) -> bool {
    &&& r.frames.len() >= 1
    &&& r.frames[0].service is None
    &&& forall|k: int| 0 <= k < r.frames.len() ==> frame_ok(#[trigger] r.frames[k], r.kind, r.max)
    &&& forall|k: int|
        1 <= k < r.frames.len() ==> {
            &&& (#[trigger] r.frames[k]).service is Some
            &&& r.frames[k].entries == entry_views(spec_stack_for(r.frames[k].service.unwrap(), r.kind))
            &&& r.frames[k].depth == r.frames[k - 1].depth + 1
            &&& pending(r.frames[k - 1], r.max)
        }
    &&& r.awaiting ==> pending(r.frames.last(), r.max)
}

/// `v` with its innermost frame replaced by `f`.
pub open spec fn with_top(v: RunView, f: FrameView, awaiting: bool) -> RunView {
    RunView { frames: v.frames.update(v.frames.len() - 1, f), awaiting, kind: v.kind, max: v.max }
}

/// `f` with one more outcome.
pub open spec fn frame_push(f: FrameView, o: Included) -> FrameView {
    FrameView { service: f.service, entries: f.entries, done: f.done.push(o), depth: f.depth }
}

/// The outcomes `done` completed to `n` with [`Included::Skipped`].
pub open spec fn padded(done: Seq<Included>, n: nat) -> Seq<Included> {
    done + Seq::new((n - done.len()) as nat, |i: int| Included::Skipped)
}

/// One step of an include run from state `v` with answer `answer`.
///
/// - A pending load takes the answer: a loaded service opens a frame on
///   its stack for the dispatch kind, one level deeper; a failed load
///   becomes the outcome of the pending `include`.
/// - Otherwise the next entry of the innermost frame is looked at, unless
///   an earlier outcome ended its splicing: a non-`include` or an
///   `include` at the depth limit is skipped; an `include` below the limit
///   asks for its service by name (`entries[i].module`).
/// - A frame with every entry looked at, or whose splicing was ended, is
///   spliced by [`splice_gives`] (the remaining entries skipped).  For the
///   starting stack that is the result; an included frame becomes the
///   `Loaded` outcome of its parent's `include`.
pub open spec fn include_progress(
    v: RunView,
    answer: Option<Result<ServiceConfig, PamError>>,
    r: IncludeProgress,
) -> bool {
    let n = v.frames.len();
    let f = v.frames[n - 1];
    let i = f.done.len();
    if v.awaiting && answer is Some {
        match answer.unwrap() {
            Ok(svc) => r matches IncludeProgress::Continue(run) && run@ == RunView {
                frames: v.frames.push(
                    FrameView {
                        service: Some(svc),
                        entries: entry_views(spec_stack_for(svc, v.kind)),
                        done: Seq::empty(),
                        depth: (f.depth + 1) as u32,
                    },
                ),
                awaiting: false,
                kind: v.kind,
                max: v.max,
            },
            Err(e) => r matches IncludeProgress::Continue(run) && run@ == with_top(
                v,
                frame_push(f, Included::LoadFailed(e)),
                false,
            ),
        }
    } else if i < f.entries.len() && !stopped(f) {
        if f.entries[i as int].control != ControlFlag::Include || f.depth >= v.max {
            r matches IncludeProgress::Continue(run) && run@ == with_top(
                v,
                frame_push(f, Included::Skipped),
                false,
            )
        } else {
            r matches IncludeProgress::Load(run, name) && name@ == f.entries[i as int].module
                && run@ == with_top(v, f, true)
        }
    } else {
        let os = padded(f.done, f.entries.len());
        if n == 1 {
            r matches IncludeProgress::Finish(res) && splice_gives(f.entries, os, f.depth, v.max, res)
        } else {
            r matches IncludeProgress::Continue(run) && {
                let p = v.frames[n - 2];
                let q = run@.frames[n - 2];
                &&& run@.frames.len() == n - 1
                &&& run@.frames.take(n - 2) == v.frames.take(n - 2)
                &&& !run@.awaiting && run@.kind == v.kind && run@.max == v.max
                &&& q.service == p.service && q.entries == p.entries && q.depth == p.depth
                &&& q.done.len() == p.done.len() + 1
                &&& q.done.take(p.done.len() as int) == p.done
                &&& q.done.last() matches Included::Loaded(s, res) && f.service == Some(s)
                    && splice_gives(f.entries, os, f.depth, v.max, res)
            }
        }
    }
}

/// A frame whose outcomes are sound and complete, or ended, resolves to
/// what splicing its padded outcomes gives.
proof fn lemma_frame_resolves(
    f: FrameView,
    kind: StackKind,
    max: u32,
    res: Result<Vec<ModuleEntry>, PamError>,
)
    requires
        frame_ok(f, kind, max),
        f.done.len() == f.entries.len() || stopped(f),
        splice_gives(f.entries, padded(f.done, f.entries.len()), f.depth, max, res),
    ensures
        resolves_to(f.entries, kind, f.depth, max, res),
        res matches Ok(v) ==> no_includes(entry_views(v@)),
{
    reveal(frame_ok);
    reveal(run_ok);
    let es = f.entries;
    let os = padded(f.done, es.len());
    let d = f.done.len();
    assert(os.len() == es.len());
    assert forall|i: int| 0 <= i < os.len() implies (i < d ==> #[trigger] os[i] == f.done[i]) && (i
        >= d ==> os[i] is Skipped) by {}
    assert forall|i: int|
        0 <= i < os.len() && (#[trigger] os[i]) is Skipped && es[i].control == ControlFlag::Include
            && f.depth < max implies exists|j: int| 0 <= j < i && #[trigger] stops_at(es[j], os[j]) by {
        if i < d {
            assert(f.done[i] is Skipped);
            let j = choose|j: int| 0 <= j < i && #[trigger] stops_at(f.entries[j], f.done[j]);
            assert(os[j] == f.done[j]);
        } else {
            assert(f.done.len() != f.entries.len());
            let j = choose|j: int| 0 <= j < f.done.len() && #[trigger] stops_at(f.entries[j], f.done[j]);
            assert(os[j] == f.done[j]);
        }
    }
    assert forall|i: int|
        0 <= i < os.len() && ((#[trigger] es[i]).control != ControlFlag::Include || f.depth >= max)
            implies os[i] is Skipped by {
        if i < d {
            assert(os[i] == f.done[i]);
        }
    }
    assert forall|i: int|
        0 <= i < os.len() implies match #[trigger] os[i] {
            Included::Loaded(svc, sp) => f.depth < max && resolves_to(
                entry_views(spec_stack_for(svc, kind)),
                kind,
                (f.depth + 1) as u32,
                max,
                sp,
            ),
            _ => true,
        } by {
        if i < d {
            assert(os[i] == f.done[i]);
        }
    }
    assert forall|i: int|
        0 <= i < os.len() implies (#[trigger] os[i] matches Included::Loaded(_, Ok(v))
            ==> no_includes(entry_views(v@))) by {
        if i < d {
            assert(os[i] == f.done[i]);
        }
    }
    lemma_splice_no_includes(es, os, es.len(), f.depth, max);
    assert(splice_gives(es, os, f.depth, max, res));
}

/// One more outcome keeps a frame sound when it fits the entry it is for.
proof fn lemma_frame_push(f: FrameView, o: Included, kind: StackKind, max: u32)
    requires
        frame_ok(f, kind, max),
        f.done.len() < f.entries.len(),
        o is Skipped ==> (f.entries[f.done.len() as int].control != ControlFlag::Include || f.depth
            >= max),
        !(o is Skipped) ==> (f.entries[f.done.len() as int].control == ControlFlag::Include
            && f.depth < max),
        o matches Included::Loaded(svc, sp) ==> resolves_to(
            entry_views(spec_stack_for(svc, kind)),
            kind,
            (f.depth + 1) as u32,
            max,
            sp,
        ) && (sp matches Ok(v) ==> no_includes(entry_views(v@))),
    ensures
        frame_ok(frame_push(f, o), kind, max),
{
    reveal(frame_ok);
    reveal(run_ok);
    let g = frame_push(f, o);
    assert forall|j: int| 0 <= j < f.done.len() implies #[trigger] g.done[j] == f.done[j] by {}
    assert forall|i: int|
        0 <= i < g.done.len() && (#[trigger] g.done[i]) is Skipped && g.entries[i].control
            == ControlFlag::Include && g.depth < max implies exists|j: int|
        0 <= j < i && #[trigger] stops_at(g.entries[j], g.done[j]) by {
        if i < f.done.len() {
            assert(f.done[i] is Skipped);
            let j = choose|j: int| 0 <= j < i && #[trigger] stops_at(f.entries[j], f.done[j]);
            assert(g.done[j] == f.done[j]);
        }
    }
    assert forall|i: int|
        0 <= i < g.done.len() && ((#[trigger] g.entries[i]).control != ControlFlag::Include
            || g.depth >= max) implies g.done[i] is Skipped by {
        if i < f.done.len() {
            assert(g.done[i] == f.done[i]);
        }
    }
    assert forall|i: int|
        0 <= i < g.done.len() implies match #[trigger] g.done[i] {
            Included::Loaded(svc, sp) => g.depth < max && resolves_to(
                entry_views(spec_stack_for(svc, kind)),
                kind,
                (g.depth + 1) as u32,
                max,
                sp,
            ) && (sp matches Ok(v) ==> no_includes(entry_views(v@))),
            _ => true,
        } by {
        if i < f.done.len() {
            assert(g.done[i] == f.done[i]);
        }
    }
}

/// Replacing the innermost frame by a sound one on the same stack keeps a
/// run sound.
proof fn lemma_with_top(v: RunView, g: FrameView, awaiting: bool)
    requires
        run_ok(v),
        frame_ok(g, v.kind, v.max),
        g.service == v.frames.last().service,
        g.entries == v.frames.last().entries,
        g.depth == v.frames.last().depth,
        awaiting ==> pending(g, v.max),
    ensures
        run_ok(with_top(v, g, awaiting)),
{
    reveal(frame_ok);
    reveal(run_ok);
    let w = with_top(v, g, awaiting);
    let n = v.frames.len();
    assert forall|k: int| 0 <= k < w.frames.len() implies frame_ok(#[trigger] w.frames[k], w.kind, w.max) by {
        if k < n - 1 {
            assert(w.frames[k] == v.frames[k]);
        }
    }
    assert forall|k: int| 1 <= k < w.frames.len() implies {
        &&& (#[trigger] w.frames[k]).service is Some
        &&& w.frames[k].entries == entry_views(spec_stack_for(w.frames[k].service.unwrap(), w.kind))
        &&& w.frames[k].depth == w.frames[k - 1].depth + 1
        &&& pending(w.frames[k - 1], w.max)
    } by {
        assert(v.frames[k] == v.frames[k]);
        assert(w.frames[k - 1] == v.frames[k - 1]);
    }
    assert(w.frames[0].service is None) by {
        if n > 1 {
            assert(w.frames[0] == v.frames[0]);
        }
    }
}

/// A loaded service opens a sound frame one level below the pending
/// `include`.
proof fn lemma_open_frame(v: RunView, svc: ServiceConfig)
    requires
        run_ok(v),
        v.awaiting,
    ensures
        run_ok(
            RunView {
                frames: v.frames.push(
                    FrameView {
                        service: Some(svc),
                        entries: entry_views(spec_stack_for(svc, v.kind)),
                        done: Seq::empty(),
                        depth: (v.frames.last().depth + 1) as u32,
                    },
                ),
                awaiting: false,
                kind: v.kind,
                max: v.max,
            },
        ),
{
    reveal(frame_ok);
    reveal(run_ok);
    let c = FrameView {
        service: Some(svc),
        entries: entry_views(spec_stack_for(svc, v.kind)),
        done: Seq::empty(),
        depth: (v.frames.last().depth + 1) as u32,
    };
    let w = RunView { frames: v.frames.push(c), awaiting: false, kind: v.kind, max: v.max };
    let n = v.frames.len();
    assert forall|k: int| 0 <= k < w.frames.len() implies frame_ok(#[trigger] w.frames[k], w.kind, w.max) by {
        if k < n {
            assert(w.frames[k] == v.frames[k]);
        }
    }
    assert forall|k: int| 1 <= k < w.frames.len() implies {
        &&& (#[trigger] w.frames[k]).service is Some
        &&& w.frames[k].entries == entry_views(spec_stack_for(w.frames[k].service.unwrap(), w.kind))
        &&& w.frames[k].depth == w.frames[k - 1].depth + 1
        &&& pending(w.frames[k - 1], w.max)
    } by {
        assert(w.frames[k - 1] == v.frames[k - 1]);
        if k < n {
            assert(w.frames[k] == v.frames[k]);
        }
    }
}

/// Dropping an included frame leaves a sound run whose innermost frame is
/// at the `include` that frame was for.
proof fn lemma_close_frame(v: RunView)
    requires
        run_ok(v),
        v.frames.len() >= 2,
    ensures
        run_ok(RunView { frames: v.frames.drop_last(), awaiting: false, kind: v.kind, max: v.max }),
        pending(v.frames[v.frames.len() - 2], v.max),
        v.frames.last().service is Some,
        v.frames.last().entries == entry_views(spec_stack_for(v.frames.last().service.unwrap(), v.kind)),
        v.frames.last().depth == v.frames[v.frames.len() - 2].depth + 1,
{
    reveal(frame_ok);
    reveal(run_ok);
    let u = RunView { frames: v.frames.drop_last(), awaiting: false, kind: v.kind, max: v.max };
    let n = v.frames.len();
    assert forall|k: int| 0 <= k < u.frames.len() implies frame_ok(#[trigger] u.frames[k], u.kind, u.max) by {
        assert(u.frames[k] == v.frames[k]);
    }
    assert forall|k: int| 1 <= k < u.frames.len() implies {
        &&& (#[trigger] u.frames[k]).service is Some
        &&& u.frames[k].entries == entry_views(spec_stack_for(u.frames[k].service.unwrap(), u.kind))
        &&& u.frames[k].depth == u.frames[k - 1].depth + 1
        &&& pending(u.frames[k - 1], u.max)
    } by {
        assert(u.frames[k] == v.frames[k]);
        assert(u.frames[k - 1] == v.frames[k - 1]);
    }
    assert(v.frames[n - 1].depth == v.frames[n - 2].depth + 1);
    assert(pending(v.frames[n - 2], v.max));
    assert(u.frames.last() == v.frames[n - 2]);
    assert(u.frames[0] == v.frames[0]);
}

/// What the rest of a step needs of a sound run.
proof fn lemma_run_basics(v: RunView)
    requires
        run_ok(v),
    ensures
        v.frames.len() >= 1,
        forall|k: int| 0 <= k < v.frames.len() ==> (#[trigger] v.frames[k]).done.len() <= v.frames[k].entries.len(),
        v.awaiting ==> pending(v.frames.last(), v.max),
        v.frames.len() >= 2 ==> v.frames.last().service is Some,
        forall|k: int| 0 <= k < v.frames.len() ==> frame_ok(#[trigger] v.frames[k], v.kind, v.max),
{
    reveal(frame_ok);
    reveal(run_ok);
    if v.frames.len() >= 2 {
        assert(v.frames[v.frames.len() - 1].service is Some);
    }
    assert forall|k: int| 0 <= k < v.frames.len() implies (#[trigger] v.frames[k]).done.len()
        <= v.frames[k].entries.len() by {
        assert(frame_ok(v.frames[k], v.kind, v.max));
    }
}

/// The entries of a frame.
fn frame_entries(f: &IncludeFrame, kind: StackKind) -> (r: &[ModuleEntry])
    ensures
        entry_views(r@) == f.view_in(kind).entries,
{
    match &f.service {
        Some(s) => s.stack_for(kind),
        None => f.entries.as_slice(),
    }
}

/// Whether some outcome in `done` ends the splicing of `entries`.
fn any_stop(entries: &[ModuleEntry], done: &Vec<Included>) -> (r: bool)
    requires
        done@.len() <= entries@.len(),
    ensures
        r == exists|j: int|
            0 <= j < done@.len() && #[trigger] stops_at(entry_views(entries@)[j], done@[j]),
{
    let mut j: usize = 0;
    while j < done.len()
        invariant
            j <= done@.len(),
            done@.len() <= entries@.len(),
            forall|k: int| 0 <= k < j ==> !#[trigger] stops_at(entry_views(entries@)[k], done@[k]),
        decreases done@.len() - j,
    {
        if stops_splicing(&entries[j], &done[j]) {
            assert(stops_at(entry_views(entries@)[j as int], done@[j as int]));
            return true;
        }
        j += 1;
    }
    false
}

impl IncludeRun {
    #[verifier::type_invariant]
    spec fn well_formed(self) -> bool {
        run_ok(self@)
    }

    /// Start splicing `entries` for the dispatch `kind` at `depth`, with
    /// the depth limit of `global`.
    pub fn new(global: &GlobalConfig, entries: Vec<ModuleEntry>, kind: StackKind, depth: u32) -> (r:
        Self)
        ensures
            r@ == (RunView {
                frames: seq![
                    FrameView {
                        service: None,
                        entries: entry_views(entries@),
                        done: Seq::empty(),
                        depth,
                    },
                ],
                awaiting: false,
                kind,
                max: global.security.max_include_depth,
            }),
    {
        let frame = IncludeFrame { service: None, entries, done: Vec::new(), depth };
        let mut frames: Vec<IncludeFrame> = Vec::new();
        frames.push(frame);
        proof {
            reveal(run_ok);
            reveal(frame_ok);
            let w = RunView {
                frames: frame_views(frames@, kind),
                awaiting: false,
                kind,
                max: global.security.max_include_depth,
            };
            assert(w.frames =~= seq![frames@[0].view_in(kind)]);
            assert(frame_ok(w.frames[0], kind, w.max));
            assert(run_ok(w));
        }
        let r = IncludeRun { frames, awaiting: false, kind, max: global.security.max_include_depth };
        assert(r@.frames =~= seq![r.frames@[0].view_in(kind)]);
        r
    }

    /// Take one step (see [`include_progress`]).  `answer` is what loading
    /// the service that the last step asked for gave; it is ignored when
    /// no load is pending.  When the run finishes, its result is what the
    /// starting stack resolves to ([`resolves_to`]), every outcome being
    /// what a step was handed back for the `include` it asked about.
    pub fn step(self, answer: Option<Result<ServiceConfig, PamError>>) -> (r: IncludeProgress)
        ensures
            include_progress(self@, answer, r),
            r matches IncludeProgress::Finish(res) ==> resolves_to(
                self@.frames[0].entries,
                self@.kind,
                self@.frames[0].depth,
                self@.max,
                res,
            ),
            r matches IncludeProgress::Finish(Ok(v)) ==> no_includes(entry_views(v@)),
            no_includes(self@.frames[0].entries) ==> (r matches IncludeProgress::Finish(res) ==> (
            res matches Ok(v) && entry_views(v@) == self@.frames[0].entries)),
    {
        proof {
            use_type_invariant(&self);
        }
        let ghost v = self@;
        proof {
            lemma_run_basics(v);
        }
        let IncludeRun { mut frames, awaiting, kind, max } = self;
        let ghost fs = frames@;
        let ghost n = fs.len();
        assert(v.frames == frame_views(fs, kind));
        let mut f = frames.pop().unwrap();
        assert(fs =~= frames@.push(f));
        let ghost fv = f.view_in(kind);
        assert(fv == v.frames[n - 1]);
        let answer = if awaiting {
            answer
        } else {
            None
        };
        match answer {
            Some(Ok(svc)) => {
                let d = f.depth + 1;
                frames.push(f);
                let child = IncludeFrame { service: Some(svc), entries: Vec::new(), done: Vec::new(), depth: d };
                frames.push(child);
                proof {
                    lemma_open_frame(v, svc);
                }
                assert(frame_views(frames@, kind) =~= v.frames.push(child.view_in(kind)));
                let run = IncludeRun { frames, awaiting: false, kind, max };
                IncludeProgress::Continue(run)
            },
            Some(Err(e)) => {
                f.done.push(Included::LoadFailed(e));
                assert(f.view_in(kind) == frame_push(fv, Included::LoadFailed(e)));
                proof {
                    lemma_frame_push(fv, Included::LoadFailed(e), kind, max);
                    lemma_with_top(v, f.view_in(kind), false);
                }
                frames.push(f);
                assert(frame_views(frames@, kind) =~= with_top(v, frame_push(fv, Included::LoadFailed(e)), false).frames);
                let run = IncludeRun { frames, awaiting: false, kind, max };
                IncludeProgress::Continue(run)
            },
            None => scan_step(frames, f, kind, max, Ghost(v)),
        }
    }
}

/// The step of an include run with no answer taken: look at the next
/// entry of the innermost frame `f` (popped off `frames`), or close it.
#[verifier::rlimit(40)]
fn scan_step(
    frames: Vec<IncludeFrame>,
    f: IncludeFrame,
    kind: StackKind,
    max: u32,
    Ghost(v): Ghost<RunView>,
) -> (r: IncludeProgress)
    requires
        run_ok(v),
        v.kind == kind,
        v.max == max,
        v.frames == frame_views(frames@.push(f), kind),
    ensures
        include_progress(RunView { awaiting: false, ..v }, None, r),
        r matches IncludeProgress::Finish(res) ==> resolves_to(
            v.frames[0].entries,
            v.kind,
            v.frames[0].depth,
            v.max,
            res,
        ),
        r matches IncludeProgress::Finish(Ok(x)) ==> no_includes(entry_views(x@)),
        no_includes(v.frames[0].entries) ==> (r matches IncludeProgress::Finish(res) ==> (
        res matches Ok(x) && entry_views(x@) == v.frames[0].entries)),
{
    let mut frames = frames;
    let mut f = f;
    proof {
        lemma_run_basics(v);
    }
    let ghost n = v.frames.len();
    let ghost fv = f.view_in(kind);
    assert(fv == v.frames[n - 1]);
    assert(frame_views(frames@, kind) =~= v.frames.take(n - 1));
    let i = f.done.len();
    let (len, next) = {
        let es = frame_entries(&f, kind);
        let stop = any_stop(es, &f.done);
        assert(stop == stopped(fv));
        let next: Option<(bool, String)> = if i < es.len() && !stop {
            let e = &es[i];
            assert(e@ == fv.entries[i as int]);
            Some((e.control != ControlFlag::Include || f.depth >= max, e.module.clone()))
        } else {
            None
        };
        (es.len(), next)
    };
    match next {
        Some((true, _)) => {
            f.done.push(Included::Skipped);
            assert(f.view_in(kind) == frame_push(fv, Included::Skipped));
            proof {
                lemma_frame_push(fv, Included::Skipped, kind, max);
                lemma_with_top(v, f.view_in(kind), false);
            }
            frames.push(f);
            assert(frame_views(frames@, kind) =~= with_top(v, frame_push(fv, Included::Skipped), false).frames);
            let run = IncludeRun { frames, awaiting: false, kind, max };
            IncludeProgress::Continue(run)
        },
        Some((false, name)) => {
            proof {
                lemma_with_top(v, fv, true);
            }
            frames.push(f);
            assert(frame_views(frames@, kind) =~= with_top(v, fv, true).frames);
            let run = IncludeRun { frames, awaiting: true, kind, max };
            IncludeProgress::Load(run, name)
        },
        None => {
            let IncludeFrame { service, entries, mut done, depth } = f;
            let ghost d0 = done@;
            while done.len() < len
                invariant
                    d0.len() <= done@.len() <= len,
                    done@ == d0 + Seq::new((done@.len() - d0.len()) as nat, |j: int| Included::Skipped),
                decreases len - done@.len(),
            {
                done.push(Included::Skipped);
                assert(done@ =~= d0 + Seq::new(
                    (done@.len() - d0.len()) as nat,
                    |j: int| Included::Skipped,
                ));
            }
            assert(done@ =~= padded(fv.done, fv.entries.len()));
            let res = {
                let es: &[ModuleEntry] = match &service {
                    Some(s) => s.stack_for(kind),
                    None => entries.as_slice(),
                };
                assert(entry_views(es@) == fv.entries);
                splice_at(max, es, done, depth)
            };
            proof {
                lemma_frame_resolves(fv, kind, max, res);
            }
            if frames.len() == 0 {
                proof {
                    if no_includes(fv.entries) {
                        lemma_splice_unchanged(
                            fv.entries,
                            padded(fv.done, fv.entries.len()),
                            fv.entries.len(),
                            depth,
                            max,
                        );
                        assert(fv.entries.take(fv.entries.len() as int) =~= fv.entries);
                    }
                }
                IncludeProgress::Finish(res)
            } else {
                proof {
                    lemma_close_frame(v);
                }
                let ghost u = RunView { frames: v.frames.drop_last(), awaiting: false, kind: v.kind, max: v.max };
                let ghost pv = v.frames[n - 2];
                let mut p = frames.pop().unwrap();
                assert(p.view_in(kind) == pv);
                let svc = match service {
                    Some(s) => s,
                    None => {
                        proof {
                            assert(v.frames[n - 1].service is Some);
                        }
                        return IncludeProgress::Finish(res);
                    },
                };
                let ghost o = Included::Loaded(svc, res);
                p.done.push(Included::Loaded(svc, res));
                assert(p.view_in(kind) == frame_push(pv, o));
                proof {
                    assert(u.frames.last() == pv);
                    lemma_frame_push(pv, o, kind, max);
                    lemma_with_top(u, frame_push(pv, o), false);
                }
                frames.push(p);
                assert(frame_views(frames@, kind) =~= with_top(u, frame_push(pv, o), false).frames);
                let run = IncludeRun { frames, awaiting: false, kind, max };
                assert(run@.frames.take(n - 2) =~= v.frames.take(n - 2));
                assert(frame_push(pv, o).done.take(pv.done.len() as int) =~= pv.done);
                IncludeProgress::Continue(run)
            }
        },
    }
}

// ---------------------------------------------------------------------------
// Stack semantics and its laws
// ---------------------------------------------------------------------------

/// The status that a top-level stack ends with, from impression `imp` and
/// status `status`, when its remaining entries are modules with action
/// tables and return values `steps` and none of the tables holds a jump:
/// each step is what [`StackRun::module_returned`] does.
pub open spec fn run_from(imp: Impression, status: i32, steps: Seq<(Seq<Action>, i32)>) -> i32
    decreases steps.len(),
{
    if steps.len() == 0 {
        stack_outcome(imp, status)
    } else {
        let (table, retval) = steps[0];
        if retval == PAM_INCOMPLETE {
            PAM_INCOMPLETE
        } else {
            let (imp2, status2, flow) = apply_spec(
                spec_action_for(table, retval),
                retval,
                imp,
                status,
            );
            match flow {
                ControlFlow::Continue => run_from(imp2, status2, steps.drop_first()),
                ControlFlow::Done => stack_outcome(imp2, status2),
                ControlFlow::Die => status2,
            }
        }
    }
}

/// The status of a whole stack run from the start.
pub open spec fn run_result(steps: Seq<(Seq<Action>, i32)>) -> i32 {
    run_from(Impression::Undef, PAM_PERM_DENIED, steps)
}

/// A stack of `required` modules returning `results`.
pub open spec fn required_steps(results: Seq<i32>) -> Seq<(Seq<Action>, i32)> {
    results.map_values(|r: i32| (control_table(ControlFlag::Required), r))
}

/// A return value that a `required` module counts as success or ignores.
pub open spec fn passes_required(r: i32) -> bool {
    r == PAM_SUCCESS || r == PAM_NEW_AUTHTOK_REQD || r == PAM_IGNORE
}

/// A stack with no modules is denied.
pub proof fn law_empty_stack_denied()
    ensures
        run_result(Seq::empty()) == PAM_PERM_DENIED,
{
}

proof fn lemma_required_step(r: i32)
    ensures
        spec_action_for(control_table(ControlFlag::Required), r) == (if passes_required(r) {
            if r == PAM_IGNORE {
                Action::Ignore
            } else {
                Action::Okay
            }
        } else {
            Action::Bad
        }),
{
}

proof fn lemma_required_steps_drop_first(results: Seq<i32>)
    requires
        results.len() > 0,
    ensures
        required_steps(results).drop_first() == required_steps(results.drop_first()),
        required_steps(results)[0] == (control_table(ControlFlag::Required), results[0]),
{
    assert(required_steps(results).drop_first() =~= required_steps(results.drop_first()));
}

/// Once a stack of `required` modules has failed, later results change
/// nothing (unless one asks to be called again).
proof fn lemma_required_negative(status: i32, results: Seq<i32>)
    requires
        forall|i: int| 0 <= i < results.len() ==> results[i] != PAM_INCOMPLETE,
    ensures
        run_from(Impression::Negative, status, required_steps(results)) == status,
    decreases results.len(),
{
    if results.len() > 0 {
        lemma_required_steps_drop_first(results);
        lemma_required_step(results[0]);
        lemma_required_negative(status, results.drop_first());
    }
}

/// A stack of `required` modules that all succeed while not yet failed
/// ends in success.
proof fn lemma_required_all_success(imp: Impression, status: i32, results: Seq<i32>)
    requires
        imp == Impression::Positive ==> status == PAM_SUCCESS,
        imp != Impression::Negative,
        results.len() > 0 || imp == Impression::Positive,
        forall|i: int| 0 <= i < results.len() ==> results[i] == PAM_SUCCESS,
    ensures
        run_from(imp, status, required_steps(results)) == PAM_SUCCESS,
    decreases results.len(),
{
    if results.len() > 0 {
        lemma_required_steps_drop_first(results);
        lemma_required_step(results[0]);
        lemma_required_all_success(Impression::Positive, PAM_SUCCESS, results.drop_first());
    }
}

/// A stack of `required` modules that all return success succeeds.
pub proof fn law_required_all_success(results: Seq<i32>)
    requires
        results.len() > 0,
        forall|i: int| 0 <= i < results.len() ==> results[i] == PAM_SUCCESS,
    ensures
        run_result(required_steps(results)) == PAM_SUCCESS,
{
    lemma_required_all_success(Impression::Undef, PAM_PERM_DENIED, results);
}

proof fn lemma_required_first_failure(imp: Impression, status: i32, results: Seq<i32>, k: int)
    requires
        imp != Impression::Negative,
        0 <= k < results.len(),
        forall|j: int| 0 <= j < k ==> passes_required(#[trigger] results[j]),
        !passes_required(results[k]),
        forall|i: int| 0 <= i < results.len() ==> results[i] != PAM_INCOMPLETE,
    ensures
        run_from(imp, status, required_steps(results)) == results[k],
    decreases k,
{
    lemma_required_steps_drop_first(results);
    lemma_required_step(results[0]);
    if k == 0 {
        lemma_required_negative(results[0], results.drop_first());
    } else {
        let (imp2, status2, flow) = apply_spec(
            spec_action_for(control_table(ControlFlag::Required), results[0]),
            results[0],
            imp,
            status,
        );
        assert(passes_required(results[0]));
        assert forall|j: int| 0 <= j < k - 1 implies passes_required(
            #[trigger] results.drop_first()[j],
        ) by {
            assert(results.drop_first()[j] == results[j + 1]);
        }
        lemma_required_first_failure(imp2, status2, results.drop_first(), k - 1);
    }
}

/// In a stack of `required` modules, the stack fails with the return value
/// of the first module that neither succeeds nor is ignored, whatever the
/// modules after it return (as long as none asks to be called again).
pub proof fn law_required_first_failure(results: Seq<i32>, k: int)
    requires
        0 <= k < results.len(),
        forall|j: int| 0 <= j < k ==> passes_required(#[trigger] results[j]),
        !passes_required(results[k]),
        forall|i: int| 0 <= i < results.len() ==> results[i] != PAM_INCOMPLETE,
    ensures
        run_result(required_steps(results)) == results[k],
{
    lemma_required_first_failure(Impression::Undef, PAM_PERM_DENIED, results, k);
}

/// A `requisite` module that succeeds (or asks for a new token) does not
/// end the stack: it counts as a `required` one, and the stack goes on, so
/// the first `required` module after it that fails still decides the
/// stack.
pub proof fn law_requisite_success_continues(c: i32, results: Seq<i32>, k: int)
    requires
        c == PAM_SUCCESS || c == PAM_NEW_AUTHTOK_REQD,
        0 <= k < results.len(),
        forall|j: int| 0 <= j < k ==> passes_required(#[trigger] results[j]),
        !passes_required(results[k]),
        forall|i: int| 0 <= i < results.len() ==> results[i] != PAM_INCOMPLETE,
    ensures
        spec_action_for(control_table(ControlFlag::Requisite), c) == spec_action_for(
            control_table(ControlFlag::Required),
            c,
        ),
        run_result(seq![(control_table(ControlFlag::Requisite), c)] + required_steps(results))
            == results[k],
{
    let rest = required_steps(results);
    let steps = seq![(control_table(ControlFlag::Requisite), c)] + rest;
    assert(steps.drop_first() =~= rest);
    assert(steps[0] == (control_table(ControlFlag::Requisite), c));
    lemma_required_first_failure(Impression::Positive, c, results, k);
}

proof fn lemma_required_new_authtok(imp: Impression, status: i32, results: Seq<i32>)
    requires
        imp != Impression::Negative,
        imp == Impression::Positive ==> (status == PAM_SUCCESS || status == PAM_NEW_AUTHTOK_REQD),
        forall|i: int|
            0 <= i < results.len() ==> (#[trigger] results[i] == PAM_SUCCESS || results[i]
                == PAM_NEW_AUTHTOK_REQD),
        (exists|i: int| 0 <= i < results.len() && #[trigger] results[i] == PAM_NEW_AUTHTOK_REQD)
            || (imp == Impression::Positive && status == PAM_NEW_AUTHTOK_REQD),
    ensures
        run_from(imp, status, required_steps(results)) == PAM_NEW_AUTHTOK_REQD,
    decreases results.len(),
{
    if results.len() > 0 {
        lemma_required_steps_drop_first(results);
        lemma_required_step(results[0]);
        let r0 = results[0];
        assert(r0 == PAM_SUCCESS || r0 == PAM_NEW_AUTHTOK_REQD);
        let st2 = if imp == Impression::Undef {
            r0
        } else if status == PAM_SUCCESS && r0 == PAM_NEW_AUTHTOK_REQD {
            PAM_NEW_AUTHTOK_REQD
        } else {
            status
        };
        let tail = results.drop_first();
        if !(imp == Impression::Positive && status == PAM_NEW_AUTHTOK_REQD) && r0
            != PAM_NEW_AUTHTOK_REQD {
            let i = choose|i: int| 0 <= i < results.len() && #[trigger] results[i] == PAM_NEW_AUTHTOK_REQD;
            assert(i > 0);
            assert(tail[i - 1] == PAM_NEW_AUTHTOK_REQD);
        }
        assert forall|i: int| 0 <= i < tail.len() implies (#[trigger] tail[i] == PAM_SUCCESS
            || tail[i] == PAM_NEW_AUTHTOK_REQD) by {
            assert(tail[i] == results[i + 1]);
        }
        lemma_required_new_authtok(Impression::Positive, st2, tail);
    }
}

/// A stack of `required` modules that all succeed, one or more of them
/// asking for a new token, asks for a new token.
pub proof fn law_required_new_authtok(results: Seq<i32>)
    requires
        forall|i: int|
            0 <= i < results.len() ==> (#[trigger] results[i] == PAM_SUCCESS || results[i]
                == PAM_NEW_AUTHTOK_REQD),
        exists|i: int| 0 <= i < results.len() && #[trigger] results[i] == PAM_NEW_AUTHTOK_REQD,
    ensures
        run_result(required_steps(results)) == PAM_NEW_AUTHTOK_REQD,
{
    lemma_required_new_authtok(Impression::Undef, PAM_PERM_DENIED, results);
}

/// Whether some step's action counts the module as a success (`ok` or
/// `done`).
pub open spec fn some_success_action(steps: Seq<(Seq<Action>, i32)>) -> bool {
    exists|i: int|
        0 <= i < steps.len() && (#[trigger] spec_action_for(steps[i].0, steps[i].1) == Action::Okay
            || spec_action_for(steps[i].0, steps[i].1) == Action::Done)
}

proof fn lemma_success_needs_ok_or_done(imp: Impression, status: i32, steps: Seq<(Seq<Action>, i32)>)
    requires
        imp == Impression::Undef || (imp == Impression::Negative && status != PAM_SUCCESS),
        run_from(imp, status, steps) == PAM_SUCCESS,
    ensures
        some_success_action(steps),
    decreases steps.len(),
{
    if steps.len() > 0 {
        let (table, retval) = steps[0];
        let a = spec_action_for(table, retval);
        if a != Action::Okay && a != Action::Done {
            let (imp2, status2, flow) = apply_spec(a, retval, imp, status);
            lemma_success_needs_ok_or_done(imp2, status2, steps.drop_first());
            let i = choose|i: int|
                0 <= i < steps.drop_first().len() && (#[trigger] spec_action_for(
                    steps.drop_first()[i].0,
                    steps.drop_first()[i].1,
                ) == Action::Okay || spec_action_for(
                    steps.drop_first()[i].0,
                    steps.drop_first()[i].1,
                ) == Action::Done);
            assert(steps.drop_first()[i] == steps[i + 1]);
            assert(spec_action_for(steps[i + 1].0, steps[i + 1].1) == Action::Okay
                || spec_action_for(steps[i + 1].0, steps[i + 1].1) == Action::Done);
        } else {
            assert(spec_action_for(steps[0].0, steps[0].1) == a);
        }
    }
}

/// A stack succeeds only through a module whose action is `ok` or `done`:
/// modules that are ignored, fail, die or reset never make it succeed.
pub proof fn law_success_needs_ok_or_done(steps: Seq<(Seq<Action>, i32)>)
    requires
        run_result(steps) == PAM_SUCCESS,
    ensures
        some_success_action(steps),
{
    lemma_success_needs_ok_or_done(Impression::Undef, PAM_PERM_DENIED, steps);
}

/// A stack whose every module is ignored (and none asks to be called
/// again) is denied.
pub proof fn law_all_ignored_denied(steps: Seq<(Seq<Action>, i32)>)
    requires
        forall|i: int|
            0 <= i < steps.len() ==> steps[i].1 != PAM_INCOMPLETE && #[trigger] spec_action_for(
                steps[i].0,
                steps[i].1,
            ) == Action::Ignore,
    ensures
        run_result(steps) == PAM_PERM_DENIED,
    decreases steps.len(),
{
    if steps.len() > 0 {
        let rest = steps.drop_first();
        assert(spec_action_for(steps[0].0, steps[0].1) == Action::Ignore);
        assert forall|i: int| 0 <= i < rest.len() implies rest[i].1 != PAM_INCOMPLETE
            && #[trigger] spec_action_for(rest[i].0, rest[i].1) == Action::Ignore by {
            assert(rest[i] == steps[i + 1]);
        }
        law_all_ignored_denied(rest);
    }
}

/// A `sufficient` module that succeeds while the stack has not failed ends
/// the stack with success, whatever comes after it.
pub proof fn law_sufficient_success_short_circuits(
    imp: Impression,
    status: i32,
    rest: Seq<(Seq<Action>, i32)>,
)
    requires
        imp != Impression::Negative,
    ensures
        run_from(
            imp,
            status,
            seq![(control_table(ControlFlag::Sufficient), PAM_SUCCESS)] + rest,
        ) == PAM_SUCCESS,
{
    let steps = seq![(control_table(ControlFlag::Sufficient), PAM_SUCCESS)] + rest;
    assert(steps[0] == (control_table(ControlFlag::Sufficient), PAM_SUCCESS));
}

/// Once the stack has failed, a `sufficient` module's result is ignored.
pub proof fn law_sufficient_after_failure_ignored(
    status: i32,
    r: i32,
    rest: Seq<(Seq<Action>, i32)>,
)
    requires
        r != PAM_INCOMPLETE,
    ensures
        run_from(
            Impression::Negative,
            status,
            seq![(control_table(ControlFlag::Sufficient), r)] + rest,
        ) == run_from(Impression::Negative, status, rest),
{
    let steps = seq![(control_table(ControlFlag::Sufficient), r)] + rest;
    assert(steps[0] == (control_table(ControlFlag::Sufficient), r));
    assert(steps.drop_first() =~= rest);
}

/// A `requisite` module that fails with a defined return code ends the
/// stack at once with that code, whatever comes after it.
pub proof fn law_requisite_failure_stops(
    imp: Impression,
    status: i32,
    r: i32,
    rest: Seq<(Seq<Action>, i32)>,
)
    requires
        0 <= r < PAM_RETURN_VALUES,
        !passes_required(r),
        r != PAM_INCOMPLETE,
    ensures
        run_from(imp, status, seq![(control_table(ControlFlag::Requisite), r)] + rest) == r,
{
    let steps = seq![(control_table(ControlFlag::Requisite), r)] + rest;
    assert(steps[0] == (control_table(ControlFlag::Requisite), r));
}

/// An `optional` module that does not succeed leaves the stack as it was.
pub proof fn law_optional_failure_ignored(
    imp: Impression,
    status: i32,
    r: i32,
    rest: Seq<(Seq<Action>, i32)>,
)
    requires
        r != PAM_SUCCESS,
        r != PAM_NEW_AUTHTOK_REQD,
        r != PAM_INCOMPLETE,
        0 <= r < PAM_RETURN_VALUES,
    ensures
        run_from(imp, status, seq![(control_table(ControlFlag::Optional), r)] + rest) == run_from(
            imp,
            status,
            rest,
        ),
{
    let steps = seq![(control_table(ControlFlag::Optional), r)] + rest;
    assert(steps[0] == (control_table(ControlFlag::Optional), r));
    assert(steps.drop_first() =~= rest);
}

/// A failed stack stays failed, with its first status, under every action
/// except `die` (which records its own status) and `reset`.
pub proof fn law_failure_is_sticky(action: Action, retval: i32, status: i32)
    requires
        action != Action::Reset,
    ensures
        apply_spec(action, retval, Impression::Negative, status).0 == Impression::Negative,
        action != Action::Die ==> apply_spec(action, retval, Impression::Negative, status).1
            == status,
{
}

} // verus!
