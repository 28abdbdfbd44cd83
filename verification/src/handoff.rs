//! The decisions of a handoff: which provider and model the conversation
//! goes to, what the new conversation is called and first asked, which
//! thread a query names, and what the sidecar is relaunched with afterwards.
//! Copying files, talking to the app-server and launching happen outside this
//! library.

use vstd::prelude::*;
use crate::config::{Config, Provider, lookup, sorted_by_name};
use crate::sidecar::Active;
use crate::threads::{Thread, label_spec};
use crate::text::{chars_of, string_from, push_str, skip_chars, push_chars, decimal, u64_to_string, opt_view};
use crate::ui::{thousands, thousands_spec};

verus! {

/// The part of a model slug after its last `/` (the whole slug when it has
/// none): `nex-agi/nex-n2.5-pro:free` becomes `nex-n2.5-pro:free`.
pub open spec fn short_model_spec(model: Seq<char>) -> Seq<char>
    decreases model.len(),
{
    if model.len() == 0 {
        model
    } else if model.last() == '/' {
        Seq::empty()
    } else {
        short_model_spec(model.drop_last()).push(model.last())
    }
}

/// The model's name without its vendor prefix.
pub fn short_model(model: &str) -> (r: String)
    ensures
        r@ == short_model_spec(model@),
{
    let v = chars_of(model);
    let mut k = v.len();
    assert(v@.take(k as int) =~= v@);
    assert(v@.skip(k as int) =~= Seq::<char>::empty());
    assert(short_model_spec(v@) =~= short_model_spec(v@.take(k as int)) + v@.skip(k as int));
    while k > 0 && v[k - 1] != '/'
        invariant
            k <= v.len(),
            short_model_spec(v@) == short_model_spec(v@.take(k as int)) + v@.skip(k as int),
        decreases k,
    {
        proof {
            let t = v@.take(k as int);
            assert(t.drop_last() =~= v@.take(k - 1));
            assert(t.last() == v@[k - 1]);
            assert(v@.skip(k - 1) =~= seq![v@[k - 1]] + v@.skip(k as int));
            assert(short_model_spec(t) == short_model_spec(v@.take(k - 1)).push(v@[k - 1]));
            assert(short_model_spec(v@.take(k - 1)).push(v@[k - 1]) + v@.skip(k as int) =~= short_model_spec(
                v@.take(k - 1),
            ) + v@.skip(k - 1));
        }
        k -= 1;
    }
    proof {
        if k > 0 {
            assert(v@.take(k as int).last() == '/');
        }
        assert(short_model_spec(v@.take(k as int)) =~= Seq::<char>::empty());
    }
    let rest = skip_chars(&v, k);
    assert(short_model_spec(v@) =~= v@.skip(k as int));
    string_from(&rest)
}

/// No `/` is left in a short model name, and the slug ends with it.
pub proof fn lemma_short_model(model: Seq<char>)
    ensures
        !short_model_spec(model).contains('/'),
        short_model_spec(model).is_suffix_of(model),
    decreases model.len(),
{
    if model.len() > 0 && model.last() != '/' {
        lemma_short_model(model.drop_last());
        let s = short_model_spec(model.drop_last());
        assert(model.drop_last().push(model.last()) =~= model);
        assert(s.push(model.last()) =~= model.subrange(
            model.len() - s.len() - 1,
            model.len() as int,
        ));
        if s.push(model.last()).contains('/') {
            let i = choose|i: int| 0 <= i < s.len() + 1 && s.push(model.last())[i] == '/';
            if i < s.len() {
                assert(s[i] == '/');
            }
        }
    }
}

/// The first message of a handoff: it asks the new model to sum up where the
/// work stands, and to change nothing.
pub open spec fn default_message_spec(label: Seq<char>, model: Seq<char>) -> Seq<char> {
    label + "（"@ + model
        + "）へ引き継ぎました。ここまでの状況と、次に着手すべきことを3行以内で整理してください。ファイルの変更やコマンドの実行はしないでください。"@
}

/// The first message of a handoff to provider `p` running `model`.
pub fn default_message(p: &Provider, model: &str) -> (r: String)
    ensures
        r@ == default_message_spec(p.label@, model@),
{
    let mut s = String::new();
    push_str(&mut s, p.label.as_str());
    push_str(&mut s, "（");
    push_str(&mut s, model);
    push_str(
        &mut s,
        "）へ引き継ぎました。ここまでの状況と、次に着手すべきことを3行以内で整理してください。ファイルの変更やコマンドの実行はしないでください。",
    );
    s
}

/// The name of the new conversation: the old label with the model after it.
pub open spec fn plan_name_spec(t: Thread, model: Seq<char>) -> Seq<char> {
    label_spec(t.name@, t.preview@, t.title@, t.id@) + "（"@ + short_model_spec(model) + "）"@
}

/// The name of the new conversation.
pub fn plan_name(t: &Thread, model: &str) -> (r: String)
    ensures
        r@ == plan_name_spec(*t, model@),
{
    let mut s = t.label();
    push_str(&mut s, "（");
    push_str(&mut s, short_model(model).as_str());
    push_str(&mut s, "）");
    s
}

/// What the sidecar is relaunched with after a handoff: the target on
/// success; on failure what it ran before, when that provider still exists.
/// It is relaunched either way, so it is never left closed.
pub fn relaunch_target<'a>(
    cfg: &'a Config,
    succeeded: bool,
    active: &Active,
    target: &'a Provider,
    target_model: &str,
) -> (r: (&'a Provider, String))
    requires
        sorted_by_name(cfg.providers@),
    ensures
        if !succeeded && lookup(cfg.providers@, active.provider@) is Some {
            Some(*r.0) == lookup(cfg.providers@, active.provider@) && r.1@ == active.model@
        } else {
            *r.0 == *target && r.1@ == target_model@
        },
{
    if !succeeded {
        match cfg.provider(active.provider.as_str()) {
            Ok(p) => return (p, active.model.clone()),
            Err(_) => {},
        }
    }
    (target, string_from(&chars_of(target_model)))
}

/// Why a query does not name one thread.
pub enum ResolveError {
    /// No thread matches the query.
    NotFound { query: String },
    /// Several threads match; they are listed for the user to choose by id.
    Ambiguous { found: Vec<Thread> },
}

/// The thread a query names, from the threads the search found.
pub fn resolve(found: Vec<Thread>, query: &str) -> (r: Result<Thread, ResolveError>)
    ensures
        match r {
            Ok(t) => found@.len() == 1 && t == found@[0],
            Err(ResolveError::NotFound { query: q }) => found@.len() == 0 && q@ == query@,
            Err(ResolveError::Ambiguous { found: f }) => found@.len() > 1 && f@ == found@,
        },
{
    let mut found = found;
    if found.len() == 0 {
        Err(ResolveError::NotFound { query: string_from(&chars_of(query)) })
    } else if found.len() == 1 {
        let t = found.remove(0);
        Ok(t)
    } else {
        Err(ResolveError::Ambiguous { found })
    }
}


// ---------------------------------------------------------------------------
// The plan shown before a handoff
// ---------------------------------------------------------------------------

/// The lines of `s` after the characters `cur` already read, as `str::lines`
/// gives them: split at `\n`, a `\r` right before it dropped, no line after a
/// final `\n`.
pub open spec fn lines_from(s: Seq<char>, cur: Seq<char>) -> Seq<Seq<char>>
    decreases s.len(),
{
    if s.len() == 0 {
        if cur.len() == 0 {
            Seq::empty()
        } else {
            seq![cur]
        }
    } else if s[0] == '\n' {
        seq![strip_cr(cur)] + lines_from(s.drop_first(), Seq::empty())
    } else {
        lines_from(s.drop_first(), cur.push(s[0]))
    }
}

/// `line` without a final `\r`.
pub open spec fn strip_cr(line: Seq<char>) -> Seq<char> {
    if line.len() > 0 && line.last() == '\r' {
        line.drop_last()
    } else {
        line
    }
}

/// The lines of `s` (`str::lines`).
pub open spec fn text_lines(s: Seq<char>) -> Seq<Seq<char>> {
    lines_from(s, Seq::empty())
}

/// What the plan says of the sidecar: its state, and what happens to it.
pub open spec fn instance_line(running: bool, no_relaunch: bool, target: Seq<char>) -> Seq<char> {
    let state = if running { "起動中"@ } else { "停止中"@ };
    if no_relaunch {
        "第2インスタンス: "@ + state + "（終了・再起動しません）"@
    } else if running {
        "第2インスタンス: "@ + state + " → 終了を待ち、完了後に "@ + target + " で起動します"@
    } else {
        "第2インスタンス: "@ + state + " → 完了後に "@ + target + " で起動します"@
    }
}

/// The lines of the plan shown before a handoff. `cwd` and `sidecar` are the
/// paths as shown, `size_mb` the copied size in megabytes as shown, `tokens`
/// the input size of the latest request when known.
pub open spec fn plan_lines_spec(
    t: Thread,
    cwd: Seq<char>,
    sidecar: Seq<char>,
    target: Seq<char>,
    model: Seq<char>,
    name: Seq<char>,
    files: nat,
    size_mb: Seq<char>,
    message: Seq<char>,
    tokens: Option<i64>,
    running: bool,
    no_relaunch: bool,
) -> Seq<Seq<char>> {
    seq![
        "引き継ぎ元   : "@ + label_spec(t.name@, t.preview@, t.title@, t.id@),
        "               "@ + t.model@ + " / "@ + t.provider@ + " / "@ + cwd,
        "               id "@ + t.id@,
        "引き継ぎ先   : 第2インスタンス（"@ + sidecar + "）/ "@ + target + " / "@ + model,
        "新しい名前   : "@ + name,
        "コピー       : 会話ファイル "@ + decimal(files) + " 件（"@ + size_mb + " MB）"@ + (if files > 1 {
            "※フォーク元を含む"@
        } else {
            Seq::empty()
        }),
        "最初のメッセージ（読み取り専用で実行）:"@,
    ] + text_lines(message).map_values(|l: Seq<char>| indented(l)) + seq![
        match tokens {
            Some(n) => "送信する量   : 約 "@ + thousands_spec(n) + " トークン（元の会話の直近の入力量）"@,
            None => "送信する量   : 不明"@,
        },
        instance_line(running, no_relaunch, target),
    ]
}

fn cat(parts: &Vec<&str>) -> (r: String)
    ensures
        r@ == concat_strs(parts@),
{
    let mut s = String::new();
    let mut i: usize = 0;
    while i < parts.len()
        invariant
            i <= parts.len(),
            s@ == concat_strs(parts@.take(i as int)),
        decreases parts.len() - i,
    {
        push_str(&mut s, parts[i]);
        assert(parts@.take(i + 1).drop_last() =~= parts@.take(i as int));
        i += 1;
    }
    assert(parts@.take(parts@.len() as int) =~= parts@);
    s
}

/// The strings of `parts`, one after another.
pub open spec fn concat_strs(parts: Seq<&str>) -> Seq<char>
    decreases parts.len(),
{
    if parts.len() == 0 {
        Seq::empty()
    } else {
        concat_strs(parts.drop_last()) + parts.last()@
    }
}

/// A message line as the plan shows it.
pub open spec fn indented(l: Seq<char>) -> Seq<char> {
    "    "@ + l
}

/// The message lines of the plan, each indented by four spaces.
fn message_lines(message: &str, out: &mut Vec<String>)
    ensures
        final(out)@.map_values(|x: String| x@) == old(out)@.map_values(|x: String| x@) + text_lines(
            message@,
        ).map_values(|l: Seq<char>| indented(l)),
{
    let v = chars_of(message);
    let ghost base = out@.map_values(|x: String| x@);
    let mut cur: Vec<char> = Vec::new();
    let mut i: usize = 0;
    assert(v@.skip(0) =~= v@);
    while i < v.len()
        invariant
            i <= v.len(),
            v@ == message@,
            base + text_lines(message@).map_values(|l: Seq<char>| indented(l)) == out@.map_values(|x: String| x@) + lines_from(
                v@.skip(i as int),
                cur@,
            ).map_values(|l: Seq<char>| indented(l)),
        decreases v.len() - i,
    {
        let ghost rest = v@.skip(i as int);
        assert(rest.drop_first() =~= v@.skip(i + 1));
        assert(rest[0] == v@[i as int]);
        if v[i] == '\n' {
            let mut line = String::new();
            push_str(&mut line, "    ");
            let n = cur.len();
            if n > 0 && cur[n - 1] == '\r' {
                let t = crate::text::take_chars(&cur, n - 1);
                assert(t@ =~= cur@.drop_last());
                push_chars(&mut line, &t);
                assert(line@ =~= indented(strip_cr(cur@)));
            } else {
                push_chars(&mut line, &cur);
                assert(line@ =~= indented(strip_cr(cur@)));
            }
            let ghost prev = out@.map_values(|x: String| x@);
            out.push(line);
            proof {
                assert(out@.map_values(|x: String| x@) =~= prev.push(indented(strip_cr(cur@))));
                let tail = lines_from(v@.skip(i + 1), Seq::empty());
                assert(lines_from(rest, cur@) == seq![strip_cr(cur@)] + tail);
                assert((seq![strip_cr(cur@)] + tail).map_values(|l: Seq<char>| indented(l)) =~= seq![indented(strip_cr(cur@))]
                    + tail.map_values(|l: Seq<char>| indented(l)));
            }
            cur = Vec::new();
            assert(cur@ =~= Seq::<char>::empty());
        } else {
            let ghost before = cur@;
            cur.push(v[i]);
            assert(lines_from(rest, before) == lines_from(v@.skip(i + 1), cur@));
        }
        i += 1;
    }
    proof {
        assert(v@.skip(v.len() as int) =~= Seq::<char>::empty());
    }
    if cur.len() > 0 {
        let mut line = String::new();
        push_str(&mut line, "    ");
        push_chars(&mut line, &cur);
        assert(line@ =~= indented(cur@));
        let ghost prev = out@.map_values(|x: String| x@);
        out.push(line);
        assert(out@.map_values(|x: String| x@) =~= prev.push(indented(cur@)));
        assert(seq![cur@].map_values(|l: Seq<char>| indented(l)) =~= seq![indented(cur@)]);
    } else {
        assert(Seq::<Seq<char>>::empty().map_values(|l: Seq<char>| indented(l)) =~= Seq::<Seq<char>>::empty());
        assert(out@.map_values(|x: String| x@) + Seq::<Seq<char>>::empty() =~= out@.map_values(|x: String| x@));
    }
}

/// The lines of the plan shown before a handoff; the size of the copied
/// files comes in as shown (`size_mb`), since it is a fraction.
pub fn plan_lines(
    t: &Thread,
    cwd: &str,
    sidecar: &str,
    target: &str,
    model: &str,
    name: &str,
    files: usize,
    size_mb: &str,
    message: &str,
    tokens: Option<i64>,
    running: bool,
    no_relaunch: bool,
) -> (r: Vec<String>)
    ensures
        r@.map_values(|x: String| x@) == plan_lines_spec(
            *t,
            cwd@,
            sidecar@,
            target@,
            model@,
            name@,
            files as nat,
            size_mb@,
            message@,
            tokens,
            running,
            no_relaunch,
        ),
{
    proof {
        reveal_with_fuel(concat_strs, 7);
    }
    let mut out: Vec<String> = Vec::new();
    let label = t.label();
    let l0 = cat(&vec!["引き継ぎ元   : ", label.as_str()]);
    let l1 = cat(&vec!["               ", t.model.as_str(), " / ", t.provider.as_str(), " / ", cwd]);
    let l2 = cat(&vec!["               id ", t.id.as_str()]);
    let l3 = cat(&vec!["引き継ぎ先   : 第2インスタンス（", sidecar, "）/ ", target, " / ", model]);
    let l4 = cat(&vec!["新しい名前   : ", name]);
    let count = u64_to_string(files as u64);
    let fork = if files > 1 { "※フォーク元を含む" } else { "" };
    let l5 = cat(&vec!["コピー       : 会話ファイル ", count.as_str(), " 件（", size_mb, " MB）", fork]);
    let l6 = cat(&vec!["最初のメッセージ（読み取り専用で実行）:"]);
    let tok = match tokens {
        Some(n) => {
            let th = thousands(n);
            cat(&vec!["送信する量   : 約 ", th.as_str(), " トークン（元の会話の直近の入力量）"])
        },
        None => cat(&vec!["送信する量   : 不明"]),
    };
    let state = if running { "起動中" } else { "停止中" };
    let inst = if no_relaunch {
        cat(&vec!["第2インスタンス: ", state, "（終了・再起動しません）"])
    } else if running {
        cat(&vec!["第2インスタンス: ", state, " → 終了を待ち、完了後に ", target, " で起動します"])
    } else {
        cat(&vec!["第2インスタンス: ", state, " → 完了後に ", target, " で起動します"])
    };
    let ghost spec = plan_lines_spec(*t, cwd@, sidecar@, target@, model@, name@, files as nat, size_mb@, message@, tokens, running, no_relaunch);
    proof {
        reveal_strlit("");
        assert(l0@ == spec[0]);
        assert(l1@ == spec[1]);
        assert(l2@ == spec[2]);
        assert(l3@ == spec[3]);
        assert(l4@ == spec[4]);
        assert(l5@ == spec[5]);
        assert(l6@ == spec[6]);
        assert(tok@ == match tokens {
            Some(n) => "送信する量   : 約 "@ + thousands_spec(n) + " トークン（元の会話の直近の入力量）"@,
            None => "送信する量   : 不明"@,
        });
        assert(inst@ == instance_line(running, no_relaunch, target@));
    }
    out.push(l0);
    out.push(l1);
    out.push(l2);
    out.push(l3);
    out.push(l4);
    out.push(l5);
    out.push(l6);
    let ghost head = out@.map_values(|x: String| x@);
    assert(head =~= seq![l0@, l1@, l2@, l3@, l4@, l5@, l6@]);
    message_lines(message, &mut out);
    let ghost mid = out@.map_values(|x: String| x@);
    out.push(tok);
    out.push(inst);
    assert(out@.map_values(|x: String| x@) =~= mid + seq![tok@, inst@]);
    proof {
        assert(out@.map_values(|x: String| x@) =~= spec);
    }
    out
}


// ---------------------------------------------------------------------------
// The steps of a handoff
// ---------------------------------------------------------------------------

/// What a handoff works with once its plan is shown.
pub struct HandoffPlan {
    /// The source thread, and its working directory.
    pub thread_id: String,
    pub cwd: String,
    /// Where it goes.
    pub provider: String,
    pub model: String,
    /// The new conversation's name and first message.
    pub name: String,
    pub message: String,
    /// Whether the sidecar runs now.
    pub running: bool,
    /// `--yes`, `--dry-run`, `--no-relaunch`.
    pub yes: bool,
    pub dry_run: bool,
    pub no_relaunch: bool,
}

/// Where a handoff stands.
#[allow(inconsistent_fields)]
pub enum HandoffState {
    /// Nothing done yet.
    Start,
    /// Waiting for the user's answer.
    Confirming,
    /// Waiting for the user to quit the sidecar.
    Quitting,
    /// Copying the rollout files.
    Copying,
    /// Waiting for the fork's reply.
    Forking,
    /// Naming the new thread `id`.
    Naming { id: String },
    /// Sending its first message.
    Starting { id: String },
    /// Waiting for the first turn to end.
    Turning { id: String },
    /// Checking that the app lists it.
    Listing { id: String },
    /// Assigning it to a project.
    Assigning { id: String },
    /// Relaunching the sidecar; `id` is the new thread when all went well.
    Relaunching { id: Option<String> },
    /// Finished.
    Done,
}

/// What came of the last action.
pub enum HandoffEvent {
    /// It was done.
    Done,
    /// The user declined.
    Declined,
    /// The fork's reply, with the new thread's id when it has one.
    Forked(Option<String>),
    /// The first turn ended, completed or not.
    TurnEnded(bool),
    /// It failed.
    Failed,
}

/// What to do next.
#[allow(inconsistent_fields)]
pub enum HandoffAction {
    /// Nothing: the plan was only shown, the user declined, or all is done.
    Stop,
    /// Ask the user whether to go on.
    Confirm,
    /// Wait for the user to quit the sidecar.
    WaitForQuit,
    /// Copy the rollout files into the sidecar's home.
    CopyFiles,
    /// Fork `thread_id` onto `provider` and `model` (`thread/fork`).
    Fork { thread_id: String, provider: String, model: String },
    /// Name the thread (`thread/name/set`).
    SetName { thread_id: String, name: String },
    /// Send the first message (`turn/start`), read-only when `read_only`.
    StartTurn { thread_id: String, message: String, read_only: bool },
    /// Wait for the turn on `thread_id` to end.
    WaitTurn { thread_id: String },
    /// Check that the app lists the thread.
    CheckListed { thread_id: String },
    /// Assign the thread to the project that contains `cwd`.
    Assign { thread_id: String, cwd: String },
    /// Relaunch the sidecar, with the target when `succeeded`, else with what
    /// it ran before.
    Relaunch { succeeded: bool },
    /// Report the outcome: the new thread, or the failure.
    Report { thread_id: Option<String> },
    /// Give up before anything was changed, reporting the failure.
    Fail,
}

/// After the user agreed: the sidecar has to quit first when it runs and will
/// be relaunched.
pub open spec fn after_confirm(plan: HandoffPlan, st: HandoffState, act: HandoffAction) -> bool {
    if !plan.no_relaunch && plan.running {
        st is Quitting && act is WaitForQuit
    } else {
        st is Copying && act is CopyFiles
    }
}

/// After the handoff ended, well (`id` is the new thread) or not.
pub open spec fn after_end(plan: HandoffPlan, id: Option<Seq<char>>, st: HandoffState, act: HandoffAction) -> bool {
    if !plan.no_relaunch {
        &&& st matches HandoffState::Relaunching { id: x }
        &&& opt_view(x) == id
        &&& act matches HandoffAction::Relaunch { succeeded }
        &&& succeeded == (id is Some)
    } else {
        &&& st is Done
        &&& act matches HandoffAction::Report { thread_id }
        &&& opt_view(thread_id) == id
    }
}

/// The step of a handoff from `state` on `event`.
pub open spec fn handoff_next(plan: HandoffPlan, state: HandoffState, event: HandoffEvent, st: HandoffState, act: HandoffAction) -> bool {
    match state {
        HandoffState::Start => if plan.dry_run {
            st is Done && act is Stop
        } else if plan.yes {
            after_confirm(plan, st, act)
        } else {
            st is Confirming && act is Confirm
        },
        HandoffState::Confirming => if event is Done {
            after_confirm(plan, st, act)
        } else {
            st is Done && act is Stop
        },
        HandoffState::Quitting => if event is Done {
            st is Copying && act is CopyFiles
        } else {
            st is Done && act is Fail
        },
        HandoffState::Copying => if event is Done {
            &&& st is Forking
            &&& act matches HandoffAction::Fork { thread_id, provider, model }
            &&& thread_id@ == plan.thread_id@
            &&& provider@ == plan.provider@
            &&& model@ == plan.model@
        } else {
            after_end(plan, None, st, act)
        },
        HandoffState::Forking => match event {
            HandoffEvent::Forked(Some(id)) => {
                &&& st matches HandoffState::Naming { id: x }
                &&& x@ == id@
                &&& act matches HandoffAction::SetName { thread_id, name }
                &&& thread_id@ == id@
                &&& name@ == plan.name@
            },
            _ => after_end(plan, None, st, act),
        },
        HandoffState::Naming { id } => if event is Done {
            &&& st matches HandoffState::Starting { id: x }
            &&& x@ == id@
            &&& act matches HandoffAction::StartTurn { thread_id, message, read_only }
            &&& thread_id@ == id@
            &&& message@ == plan.message@
            &&& read_only
        } else {
            after_end(plan, None, st, act)
        },
        HandoffState::Starting { id } => if event is Done {
            &&& st matches HandoffState::Turning { id: x }
            &&& x@ == id@
            &&& act matches HandoffAction::WaitTurn { thread_id }
            &&& thread_id@ == id@
        } else {
            after_end(plan, None, st, act)
        },
        HandoffState::Turning { id } => if event matches HandoffEvent::TurnEnded(true) {
            &&& st matches HandoffState::Listing { id: x }
            &&& x@ == id@
            &&& act matches HandoffAction::CheckListed { thread_id }
            &&& thread_id@ == id@
        } else {
            after_end(plan, None, st, act)
        },
        HandoffState::Listing { id } => if !plan.no_relaunch {
            &&& st matches HandoffState::Assigning { id: x }
            &&& x@ == id@
            &&& act matches HandoffAction::Assign { thread_id, cwd }
            &&& thread_id@ == id@
            &&& cwd@ == plan.cwd@
        } else {
            after_end(plan, Some(id@), st, act)
        },
        HandoffState::Assigning { id } => if event is Done {
            after_end(plan, Some(id@), st, act)
        } else {
            after_end(plan, None, st, act)
        },
        HandoffState::Relaunching { id } => {
            &&& st is Done
            &&& act matches HandoffAction::Report { thread_id }
            &&& opt_view(thread_id) == opt_view(id)
        },
        HandoffState::Done => st is Done && act is Stop,
    }
}

/// The answer to the question changes nothing: once the user agreed, the
/// handoff goes on exactly as when `--yes` skipped the question.
pub proof fn lemma_confirmation_as_with_yes(plan: HandoffPlan, st: HandoffState, act: HandoffAction)
    requires
        !plan.dry_run,
    ensures
        handoff_next(plan, HandoffState::Confirming, HandoffEvent::Done, st, act) <==> handoff_next(
            HandoffPlan { yes: true, ..plan },
            HandoffState::Start,
            HandoffEvent::Done,
            st,
            act,
        ),
{
}

/// A sidecar that runs and will be relaunched is waited for before anything
/// is copied, whether the user was asked or not; otherwise copying starts.
pub proof fn lemma_running_sidecar_quits_first(plan: HandoffPlan, state: HandoffState, st: HandoffState, act: HandoffAction)
    requires
        !plan.dry_run,
        state is Confirming || (state is Start && plan.yes),
        handoff_next(plan, state, HandoffEvent::Done, st, act),
    ensures
        plan.running && !plan.no_relaunch ==> st is Quitting && act is WaitForQuit,
        !(plan.running && !plan.no_relaunch) ==> st is Copying && act is CopyFiles,
{
}

/// Once copying has started, a failure never leaves the sidecar closed: it
/// is relaunched with what it ran before, or, with `--no-relaunch`, the
/// failure is reported.
pub proof fn lemma_failure_after_copying_relaunches(plan: HandoffPlan, state: HandoffState, st: HandoffState, act: HandoffAction)
    requires
        state is Copying || state is Forking || state is Naming || state is Starting || state is Turning
            || state is Assigning,
        handoff_next(plan, state, HandoffEvent::Failed, st, act),
    ensures
        !plan.no_relaunch ==> (st matches HandoffState::Relaunching { id } && id is None)
            && (act matches HandoffAction::Relaunch { succeeded } && !succeeded),
        plan.no_relaunch ==> st is Done && (act matches HandoffAction::Report { thread_id } && thread_id is None),
{
}

/// Only waiting for the sidecar to quit can end in `Fail`, which changes
/// nothing; every other step ends in a relaunch, a report or a stop.
pub proof fn lemma_only_quitting_fails(plan: HandoffPlan, state: HandoffState, event: HandoffEvent, st: HandoffState, act: HandoffAction)
    requires
        handoff_next(plan, state, event, st, act),
        act is Fail,
    ensures
        state is Quitting,
{
}

fn own(s: &String) -> (r: String)
    ensures
        r@ == s@,
{
    s.clone()
}

fn confirmed(plan: &HandoffPlan) -> (r: (HandoffState, HandoffAction))
    ensures
        after_confirm(*plan, r.0, r.1),
{
    if !plan.no_relaunch && plan.running {
        (HandoffState::Quitting, HandoffAction::WaitForQuit)
    } else {
        (HandoffState::Copying, HandoffAction::CopyFiles)
    }
}

fn ended(plan: &HandoffPlan, id: Option<String>) -> (r: (HandoffState, HandoffAction))
    ensures
        after_end(*plan, opt_view(id), r.0, r.1),
{
    if !plan.no_relaunch {
        let ok = id.is_some();
        (HandoffState::Relaunching { id }, HandoffAction::Relaunch { succeeded: ok })
    } else {
        (HandoffState::Done, HandoffAction::Report { thread_id: id })
    }
}

/// The next step of a handoff: from where it stands and what came of the
/// last action, where it stands next and what to do. The fork carries the
/// source thread, the target provider and model; the first message is sent
/// read-only; the sidecar is waited for only when it runs and will be
/// relaunched, and a relaunch or an assignment happens only without
/// `--no-relaunch`; a failure after the copying starts still relaunches.
pub fn handoff_step(plan: &HandoffPlan, state: &HandoffState, event: &HandoffEvent) -> (r: (HandoffState, HandoffAction))
    ensures
        handoff_next(*plan, *state, *event, r.0, r.1),
{
    match state {
        HandoffState::Start => if plan.dry_run {
            (HandoffState::Done, HandoffAction::Stop)
        } else if plan.yes {
            confirmed(plan)
        } else {
            (HandoffState::Confirming, HandoffAction::Confirm)
        },
        HandoffState::Confirming => match event {
            HandoffEvent::Done => confirmed(plan),
            _ => (HandoffState::Done, HandoffAction::Stop),
        },
        HandoffState::Quitting => match event {
            HandoffEvent::Done => (HandoffState::Copying, HandoffAction::CopyFiles),
            _ => (HandoffState::Done, HandoffAction::Fail),
        },
        HandoffState::Copying => match event {
            HandoffEvent::Done => (
                HandoffState::Forking,
                HandoffAction::Fork {
                    thread_id: own(&plan.thread_id),
                    provider: own(&plan.provider),
                    model: own(&plan.model),
                },
            ),
            _ => ended(plan, None),
        },
        HandoffState::Forking => match event {
            HandoffEvent::Forked(Some(id)) => (
                HandoffState::Naming { id: own(id) },
                HandoffAction::SetName { thread_id: own(id), name: own(&plan.name) },
            ),
            _ => ended(plan, None),
        },
        HandoffState::Naming { id } => match event {
            HandoffEvent::Done => (
                HandoffState::Starting { id: own(id) },
                HandoffAction::StartTurn {
                    thread_id: own(id),
                    message: own(&plan.message),
                    read_only: true,
                },
            ),
            _ => ended(plan, None),
        },
        HandoffState::Starting { id } => match event {
            HandoffEvent::Done => (
                HandoffState::Turning { id: own(id) },
                HandoffAction::WaitTurn { thread_id: own(id) },
            ),
            _ => ended(plan, None),
        },
        HandoffState::Turning { id } => match event {
            HandoffEvent::TurnEnded(true) => (
                HandoffState::Listing { id: own(id) },
                HandoffAction::CheckListed { thread_id: own(id) },
            ),
            _ => ended(plan, None),
        },
        HandoffState::Listing { id } => if !plan.no_relaunch {
            (
                HandoffState::Assigning { id: own(id) },
                HandoffAction::Assign { thread_id: own(id), cwd: own(&plan.cwd) },
            )
        } else {
            ended(plan, Some(own(id)))
        },
        HandoffState::Assigning { id } => match event {
            HandoffEvent::Done => ended(plan, Some(own(id))),
            _ => ended(plan, None),
        },
        HandoffState::Relaunching { id } => {
            let t = match id {
                Some(x) => Some(own(x)),
                None => None,
            };
            (HandoffState::Done, HandoffAction::Report { thread_id: t })
        },
        HandoffState::Done => (HandoffState::Done, HandoffAction::Stop),
    }
}

} // verus!
