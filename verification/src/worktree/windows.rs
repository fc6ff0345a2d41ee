//! Opening and closing tmux windows by their names.

use vstd::prelude::*;

use crate::process;
use crate::process::{CommandView, Reply, ReplyView};
use crate::text;
use crate::worktree::steps;
use crate::worktree::steps::{Action, ActionView, Answer, AnswerView, Step, StepView};

verus! {

/// Have tmux list its windows by name, a line for each.
pub open spec fn ask_windows() -> CommandView {
    process::tmux_with(seq!["list-windows"@, "-F"@, "#{window_name}"@])
}

/// Have tmux open a window in a directory, in the background.
pub open spec fn ask_open(window: Seq<char>, dir: Seq<char>) -> CommandView {
    process::tmux_with(seq!["new-window"@, "-d"@, "-n"@, window, "-c"@, dir])
}

/// Have tmux close a window.
pub open spec fn ask_close(window: Seq<char>) -> CommandView {
    process::tmux_with(seq!["kill-window"@, "-t"@, window])
}

/// Does tmux list the window? A tmux that ended badly lists none.
pub open spec fn lists(reply: ReplyView, window: Seq<char>) -> bool {
    reply.succeeded() && text::lines(reply->stdout).contains(window)
}

fn is_listed(reply: &Reply, window: &str) -> (r: bool)
    ensures
        r == lists(reply@, window@),
{
    if !reply.success() {
        return false;
    }
    let names: Vec<String> = match reply {
        Reply::Exited { stdout, .. } => text::lines_of(stdout.as_str()),
        Reply::NotRun(_) => Vec::new(),
    };
    let ghost all = text::lines(reply@->stdout);
    assert(text::texts(names@) == all);
    let mut i: usize = 0;
    while i < names.len()
        invariant
            i <= names.len(),
            reply@.succeeded(),
            all == text::lines(reply@->stdout),
            text::texts(names@) == all,
            forall|j: int| 0 <= j < i ==> all[j] != window@,
        decreases names.len() - i,
    {
        assert(text::texts(names@)[i as int] == names@[i as int]@);
        if text::same(names[i].as_str(), window) {
            assert(all[i as int] == window@);
            return true;
        }
        i += 1;
    }
    assert(text::texts(names@).len() == names@.len());
    false
}

/// Closing a window if it is there, by the answers from index `at` on. Where tmux
/// cannot be asked at all there is nothing to close.
pub open spec fn closing(window: Seq<char>, h: Seq<AnswerView>, at: int) -> StepView<()> {
    if h.len() <= at {
        StepView::Ask(ActionView::Run(ask_windows()))
    } else if !lists(h[at].reply(), window) {
        StepView::Done((), at + 1)
    } else if h.len() <= at + 1 {
        StepView::Ask(ActionView::Run(ask_close(window)))
    } else {
        match h[at + 1].failure() {
            Some(why) => StepView::Failed(why),
            None => StepView::Done((), at + 2),
        }
    }
}

/// Close a window if it is there.
pub fn kill_window_if_present(window: &str, answers: &Vec<Answer>, at: usize) -> (r: Step<()>)
    ensures
        r@ == closing(window@, steps::history(answers@), at as int),
{
    if answers.len() <= at {
        let args = ["list-windows", "-F", "#{window_name}"];
        assert(text::slices(args@) =~= seq!["list-windows"@, "-F"@, "#{window_name}"@]);
        return Step::Ask(Action::Run(process::tmux(&args)));
    }
    assert(steps::history(answers@)[at as int] == answers@[at as int]@);
    let reply: Reply = answers[at].reply();
    if !is_listed(&reply, window) {
        return Step::Done((), at + 1);
    }
    if answers.len() - 1 <= at {
        let args = ["kill-window", "-t", window];
        assert(text::slices(args@) =~= seq!["kill-window"@, "-t"@, window@]);
        return Step::Ask(Action::Run(process::tmux(&args)));
    }
    assert(steps::history(answers@)[at + 1] == answers@[at + 1]@);
    match answers[at + 1].failure() {
        Some(why) => Step::Failed(why),
        None => Step::Done((), at + 2),
    }
}

/// The error where a window of the name is there already.
pub open spec fn taken(window: Seq<char>) -> Seq<char> {
    text::glued(seq!["a tmux window named "@, window, " is already there"@])
}

/// Opening a window, by the answers from index `at` on. A second one of the same
/// name is refused.
pub open spec fn opening(window: Seq<char>, dir: Seq<char>, h: Seq<AnswerView>, at: int) -> StepView<
    (),
> {
    if h.len() <= at {
        StepView::Ask(ActionView::Run(ask_windows()))
    } else if h[at].reply() is NotRun {
        StepView::Failed(h[at].reply().complaint())
    } else if lists(h[at].reply(), window) {
        StepView::Failed(taken(window))
    } else if h.len() <= at + 1 {
        StepView::Ask(ActionView::Run(ask_open(window, dir)))
    } else {
        match h[at + 1].failure() {
            Some(why) => StepView::Failed(why),
            None => StepView::Done((), at + 2),
        }
    }
}

/// Open a window in a directory.
pub fn new_window(window: &str, dir: &str, answers: &Vec<Answer>, at: usize) -> (r: Step<()>)
    ensures
        r@ == opening(window@, dir@, steps::history(answers@), at as int),
{
    if answers.len() <= at {
        let args = ["list-windows", "-F", "#{window_name}"];
        assert(text::slices(args@) =~= seq!["list-windows"@, "-F"@, "#{window_name}"@]);
        return Step::Ask(Action::Run(process::tmux(&args)));
    }
    assert(steps::history(answers@)[at as int] == answers@[at as int]@);
    let reply: Reply = answers[at].reply();
    match &reply {
        Reply::NotRun(why) => return Step::Failed(why.clone()),
        _ => {},
    }
    if is_listed(&reply, window) {
        let parts = ["a tmux window named ", window, " is already there"];
        assert(text::slices(parts@) =~= seq![
            "a tmux window named "@,
            window@,
            " is already there"@,
        ]);
        return Step::Failed(text::glue(&parts));
    }
    if answers.len() - 1 <= at {
        let args = ["new-window", "-d", "-n", window, "-c", dir];
        assert(text::slices(args@) =~= seq!["new-window"@, "-d"@, "-n"@, window@, "-c"@, dir@]);
        return Step::Ask(Action::Run(process::tmux(&args)));
    }
    assert(steps::history(answers@)[at + 1] == answers@[at + 1]@);
    match answers[at + 1].failure() {
        Some(why) => Step::Failed(why),
        None => Step::Done((), at + 2),
    }
}

/// A window is closed only where tmux lists it, and only that window.
pub proof fn only_a_listed_window_is_closed(window: Seq<char>, h: Seq<AnswerView>, at: int)
    ensures
        closing(window, h, at) matches StepView::Ask(a) ==> a == ActionView::Run(ask_windows()) || (a
            == ActionView::Run(ask_close(window)) && at < h.len() && lists(h[at].reply(), window)),
{
}

/// A window is opened only where tmux was asked and lists none of its name.
pub proof fn no_second_window_of_a_name(
    window: Seq<char>,
    dir: Seq<char>,
    h: Seq<AnswerView>,
    at: int,
)
    ensures
        opening(window, dir, h, at) matches StepView::Ask(a) ==> a == ActionView::Run(ask_windows())
            || (a == ActionView::Run(ask_open(window, dir)) && at < h.len() && !lists(
            h[at].reply(),
            window,
        )),
{
}

/// A window that stands on a line of its own in what tmux wrote is listed; nothing is
/// where tmux ended badly or did not run.
pub proof fn a_line_of_its_own_lists_a_window(
    above: Seq<char>,
    window: Seq<char>,
    below: Seq<char>,
    stderr: Seq<char>,
    reply: ReplyView,
)
    requires
        !window.contains('\n'),
        window.len() > 0 ==> window.last() != '\r',
    ensures
        lists(
            ReplyView::Exited {
                code: Some(0i32),
                stdout: above.push('\n') + (window.push('\n') + below),
                stderr,
            },
            window,
        ),
        lists(
            ReplyView::Exited { code: Some(0i32), stdout: window.push('\n') + below, stderr },
            window,
        ),
        !reply.succeeded() ==> !lists(reply, window),
{
    let tail = window.push('\n') + below;
    text::lines_end_with_a_newline(window, below);
    let own = seq![window] + text::lines(below);
    assert(own[0] == window);
    assert(own.contains(window));
    lemma_lines_behind(above, tail);
    let all = text::lines(above.push('\n') + tail);
    let n = all.len() - own.len();
    assert(all[n] == window);
    assert(all.contains(window));
}

proof fn lemma_lines_behind(above: Seq<char>, tail: Seq<char>)
    ensures
        ({
            let all = text::lines(above.push('\n') + tail);
            let own = text::lines(tail);
            all.len() >= own.len() && forall|i: int|
                0 <= i < own.len() ==> all[all.len() - own.len() + i] == #[trigger] own[i]
        }),
{
    text::lemma_split_on_concat(above, '\n', tail);
    text::lemma_split_on_nonempty(tail, '\n');
    text::lemma_split_on_nonempty(above, '\n');
    let a = text::split_on(above, '\n');
    let b = text::split_on(tail, '\n');
    let pieces = a + b;
    assert(pieces.last() == b.last());
    assert(pieces.drop_last() =~= a + b.drop_last());
    let strip = |line: Seq<char>| text::strip_cr(line);
    assert((a + b.drop_last()).map_values(strip) =~= a.map_values(strip) + b.drop_last().map_values(
        strip,
    ));
}

/// Closing a window takes the question for the windows and, only where it is listed, one
/// command more; a command that fails is an error, and a window that is not listed is as
/// good as closed.
pub proof fn a_listed_window_is_closed(window: Seq<char>, h: Seq<AnswerView>, at: int)
    requires
        0 <= at <= h.len(),
    ensures
        h.len() == at ==> closing(window, h, at) == StepView::<()>::Ask(
            ActionView::Run(ask_windows()),
        ),
        at < h.len() && !lists(h[at].reply(), window) ==> closing(window, h, at) == StepView::Done(
            (),
            at + 1,
        ),
        h.len() == at + 1 && lists(h[at].reply(), window) ==> closing(window, h, at) == StepView::<
            (),
        >::Ask(ActionView::Run(ask_close(window))),
        at + 1 < h.len() && lists(h[at].reply(), window) ==> match h[at + 1].failure() {
            None => closing(window, h, at) == StepView::Done((), at + 2),
            Some(why) => closing(window, h, at) == StepView::<()>::Failed(why),
        },
{
}

/// Opening a window takes the question for the windows and, where none of its name is
/// listed, one command more; where one is, or tmux could not be asked, or the command
/// fails, it is an error.
pub proof fn a_new_window_is_opened(window: Seq<char>, dir: Seq<char>, h: Seq<AnswerView>, at: int)
    requires
        0 <= at <= h.len(),
    ensures
        h.len() == at ==> opening(window, dir, h, at) == StepView::<()>::Ask(
            ActionView::Run(ask_windows()),
        ),
        at < h.len() && h[at].reply() is NotRun ==> opening(window, dir, h, at) is Failed,
        at < h.len() && lists(h[at].reply(), window) ==> opening(window, dir, h, at) is Failed,
        h.len() == at + 1 && h[at].reply() is Exited && !lists(h[at].reply(), window) ==> opening(
            window,
            dir,
            h,
            at,
        ) == StepView::<()>::Ask(ActionView::Run(ask_open(window, dir))),
        at + 1 < h.len() && h[at].reply() is Exited && !lists(h[at].reply(), window) ==> match h[at
            + 1].failure() {
            None => opening(window, dir, h, at) == StepView::Done((), at + 2),
            Some(why) => opening(window, dir, h, at) == StepView::<()>::Failed(why),
        },
{
}

/// What is asked of tmux, word for word, and what is said of a window that is there already.
pub proof fn tmux_is_asked_in_these_words(window: Seq<char>, dir: Seq<char>)
    ensures
        ask_windows().program == "tmux"@,
        ask_windows().args == seq!["list-windows"@, "-F"@, "#{window_name}"@],
        ask_open(window, dir).program == "tmux"@,
        ask_open(window, dir).args == seq!["new-window"@, "-d"@, "-n"@, window, "-c"@, dir],
        ask_close(window).program == "tmux"@,
        ask_close(window).args == seq!["kill-window"@, "-t"@, window],
        taken(window) == "a tmux window named "@ + window + " is already there"@,
{
    text::three_parts_are_glued("a tmux window named "@, window, " is already there"@);
}

} // verus!
