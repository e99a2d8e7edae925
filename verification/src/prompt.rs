//! The dashboard's open prompt: its input split into words, flags and one target, and the
//! open request that comes of it.
use vstd::prelude::*;
use crate::text::{chars_of, owned, push_str, push_char, str_eq, string_from_range, is_ws, is_whitespace, trim};
use crate::cli::{OpenRequest, ReaderTarget, TargetView, seq_r, seq_refresh, seq_i, seq_interactive, is_epub, is_epub_spec};
use crate::dashboard::{PromptTarget, PathSuggestion, is_http_url, expand_tilde_spec};

verus! {

// ───────────────────────────── words ─────────────────────────────

/// Length of the run of non-whitespace characters at the start of `s`.
pub open spec fn word_len(s: Seq<char>) -> nat
    decreases s.len(),
{
    if s.len() > 0 && !is_ws(s[0]) {
        1 + word_len(s.drop_first())
    } else {
        0
    }
}

pub proof fn lemma_word_len(s: Seq<char>)
    ensures
        word_len(s) <= s.len(),
        s.len() > 0 && !is_ws(s[0]) ==> word_len(s) > 0,
        forall|k: int| 0 <= k < word_len(s) ==> !is_ws(s[k]),
        word_len(s) < s.len() ==> is_ws(s[word_len(s) as int]),
    decreases s.len(),
{
    if s.len() > 0 && !is_ws(s[0]) {
        lemma_word_len(s.drop_first());
        assert forall|k: int| 0 <= k < word_len(s) implies !is_ws(s[k]) by {
            if k > 0 {
                assert(s[k] == s.drop_first()[k - 1]);
            }
        }
    }
}

/// The words of `s` (`str::split_whitespace`): the maximal runs of non-whitespace characters.
pub open spec fn words(s: Seq<char>) -> Seq<Seq<char>>
    decreases s.len(),
{
    if s.len() == 0 {
        Seq::empty()
    } else if is_ws(s[0]) {
        words(s.drop_first())
    } else {
        proof {
            lemma_word_len(s);
        }
        seq![s.take(word_len(s) as int)] + words(s.skip(word_len(s) as int))
    }
}

/// End of the word that starts at `from`.
fn word_end(v: &Vec<char>, from: usize) -> (res: usize)
    requires
        from <= v@.len(),
    ensures
        res == from + word_len(v@.skip(from as int)),
        res <= v@.len(),
{
    let mut i = from;
    while i < v.len()
        invariant
            from <= i <= v@.len(),
            word_len(v@.skip(from as int)) == (i - from) + word_len(v@.skip(i as int)),
        decreases v@.len() - i,
    {
        let ghost rest = v@.skip(i as int);
        assert(rest[0] == v@[i as int]);
        assert(rest.drop_first() =~= v@.skip(i + 1));
        if is_whitespace(v[i]) {
            return i;
        }
        i = i + 1;
    }
    assert(v@.skip(i as int).len() == 0);
    i
}

/// The words of `s`, as `str::split_whitespace` yields them.
pub fn split_whitespace(s: &str) -> (res: Vec<String>)
    ensures
        res@.map_values(|t: String| t@) == words(s@),
{
    let v = chars_of(s);
    let mut res: Vec<String> = Vec::new();
    let mut i: usize = 0;
    assert(v@.skip(0) =~= v@);
    assert(res@.map_values(|t: String| t@) + words(v@) =~= words(v@));
    while i < v.len()
        invariant
            i <= v@.len(),
            v@ == s@,
            res@.map_values(|t: String| t@) + words(v@.skip(i as int)) == words(s@),
        decreases v@.len() - i,
    {
        let ghost rest = v@.skip(i as int);
        assert(rest[0] == v@[i as int]);
        if is_whitespace(v[i]) {
            assert(rest.drop_first() =~= v@.skip(i + 1));
            i = i + 1;
        } else {
            let j = word_end(&v, i);
            proof {
                lemma_word_len(rest);
                assert(rest.take(word_len(rest) as int) =~= v@.subrange(i as int, j as int));
                assert(rest.skip(word_len(rest) as int) =~= v@.skip(j as int));
            }
            let w = string_from_range(&v, i, j);
            let ghost before = res@.map_values(|t: String| t@);
            res.push(w);
            assert(res@.map_values(|t: String| t@) =~= before.push(w@));
            assert(before.push(w@) + words(v@.skip(j as int)) =~= before + (seq![w@] + words(
                v@.skip(j as int),
            )));
            i = j;
        }
    }
    assert(v@.skip(i as int) =~= Seq::<char>::empty());
    assert(res@.map_values(|t: String| t@) + Seq::<Seq<char>>::empty() =~= res@.map_values(
        |t: String| t@,
    ));
    res
}

// ───────────────────────────── the prompt's arguments ─────────────────────────────

/// What the prompt's words gave so far.
pub struct PromptScan {
    pub target: Option<Seq<char>>,
    pub refresh: bool,
    pub interactive: bool,
}

/// The message for an unknown flag.
pub open spec fn unknown_flag_message(t: Seq<char>) -> Seq<char> {
    seq!['未', '知', '参', '数', ':', ' '] + t
}

/// The message for a second target.
pub open spec fn second_target_message(t: Seq<char>) -> Seq<char> {
    seq!['只', '能', '输', '入', '一', '个', '路', '径', '或', ' ', 'U', 'R', 'L', ':', ' '] + t
}

/// The message for a prompt without a target.
pub open spec fn missing_target_message() -> Seq<char> {
    seq!['请', '输', '入', '路', '径', '或', ' ', 'U', 'R', 'L']
}

/// Reading the prompt's words in order: `-r`/`--refresh` and `-i`/`--interactive` set their
/// flags, any other word that starts with `-` is refused, the first other word is the target
/// and a second one is refused.
pub open spec fn scan_prompt(tokens: Seq<Seq<char>>) -> Result<PromptScan, Seq<char>>
    decreases tokens.len(),
{
    if tokens.len() == 0 {
        Ok(PromptScan { target: None, refresh: false, interactive: false })
    } else {
        match scan_prompt(tokens.drop_last()) {
            Err(e) => Err(e),
            Ok(st) => {
                let t = tokens.last();
                if t == seq_r() || t == seq_refresh() {
                    Ok(PromptScan { refresh: true, ..st })
                } else if t == seq_i() || t == seq_interactive() {
                    Ok(PromptScan { interactive: true, ..st })
                } else if t.len() > 0 && t[0] == '-' {
                    Err(unknown_flag_message(t))
                } else if st.target is None {
                    Ok(PromptScan { target: Some(t), ..st })
                } else {
                    Err(second_target_message(t))
                }
            },
        }
    }
}

/// The prompt's target and flags, or the message that refuses it.
pub open spec fn prompt_args_spec(input: Seq<char>) -> Result<(Seq<char>, bool, bool), Seq<char>> {
    match scan_prompt(words(input)) {
        Err(e) => Err(e),
        Ok(st) => match st.target {
            None => Err(missing_target_message()),
            Some(t) => Ok((t, st.refresh, st.interactive)),
        },
    }
}

/// The prompt's target and flags.
#[derive(Debug, Clone, PartialEq, Eq)]
pub struct DashboardPromptArgs {
    pub target: String,
    pub refresh: bool,
    pub interactive: bool,
}

proof fn lemma_scan_error_sticks(tokens: Seq<Seq<char>>, n: nat)
    requires
        n <= tokens.len(),
        scan_prompt(tokens.take(n as int)) is Err,
    ensures
        scan_prompt(tokens) == scan_prompt(tokens.take(n as int)),
    decreases tokens.len() - n,
{
    if n < tokens.len() {
        assert(tokens.take(n + 1int).drop_last() =~= tokens.take(n as int));
        lemma_scan_error_sticks(tokens, n + 1);
    } else {
        assert(tokens.take(n as int) =~= tokens);
    }
}

fn message_with(prefix: &str, t: &str) -> (res: String)
    ensures
        res@ == prefix@ + t@,
{
    let mut m = owned(prefix);
    push_str(&mut m, t);
    m
}

/// Splits the prompt's input into its target and flags.
pub fn parse_dashboard_prompt_args(input: &str) -> (res: Result<DashboardPromptArgs, String>)
    ensures
        match res {
            Ok(a) => prompt_args_spec(input@) == Ok::<(Seq<char>, bool, bool), Seq<char>>(
                (a.target@, a.refresh, a.interactive),
            ),
            Err(e) => prompt_args_spec(input@) == Err::<(Seq<char>, bool, bool), Seq<char>>(e@),
        },
{
    let tokens = split_whitespace(input);
    let ghost tv = tokens@.map_values(|t: String| t@);
    let r = "-r";
    let refresh_flag = "--refresh";
    let i_flag = "-i";
    let interactive_flag = "--interactive";
    proof {
        reveal_strlit("-r");
        reveal_strlit("--refresh");
        reveal_strlit("-i");
        reveal_strlit("--interactive");
    }
    assert(r@ =~= seq_r());
    assert(refresh_flag@ =~= seq_refresh());
    assert(i_flag@ =~= seq_i());
    assert(interactive_flag@ =~= seq_interactive());
    let mut target: Option<String> = None;
    let mut refresh = false;
    let mut interactive = false;
    let mut k: usize = 0;
    while k < tokens.len()
        invariant
            k <= tokens@.len(),
            tv == tokens@.map_values(|t: String| t@),
            tv == words(input@),
            r@ == seq_r(),
            refresh_flag@ == seq_refresh(),
            i_flag@ == seq_i(),
            interactive_flag@ == seq_interactive(),
            scan_prompt(tv.take(k as int)) == Ok::<PromptScan, Seq<char>>(
                PromptScan {
                    target: match target {
                        Some(t) => Some(t@),
                        None => None,
                    },
                    refresh: refresh,
                    interactive: interactive,
                },
            ),
        decreases tokens@.len() - k,
    {
        let t = tokens[k].as_str();
        proof {
            assert(tv.take(k + 1int).drop_last() =~= tv.take(k as int));
            assert(tv.take(k + 1int).last() == t@);
        }
        let tc = chars_of(t);
        if str_eq(t, r) || str_eq(t, refresh_flag) {
            refresh = true;
        } else if str_eq(t, i_flag) || str_eq(t, interactive_flag) {
            interactive = true;
        } else if tc.len() > 0 && tc[0] == '-' {
            proof {
                lemma_scan_error_sticks(tv, (k + 1) as nat);
            }
            let prefix = "未知参数: ";
            proof {
                reveal_strlit("未知参数: ");
            }
            let m = message_with(prefix, t);
            assert(m@ =~= unknown_flag_message(t@));
            return Err(m);
        } else if target.is_none() {
            target = Some(owned(t));
        } else {
            proof {
                lemma_scan_error_sticks(tv, (k + 1) as nat);
            }
            let prefix = "只能输入一个路径或 URL: ";
            proof {
                reveal_strlit("只能输入一个路径或 URL: ");
            }
            let m = message_with(prefix, t);
            assert(m@ =~= second_target_message(t@));
            return Err(m);
        }
        k = k + 1;
    }
    assert(tv.take(k as int) =~= tv);
    match target {
        None => {
            let m = "请输入路径或 URL";
            proof {
                reveal_strlit("请输入路径或 URL");
            }
            assert(m@ =~= missing_target_message());
            Err(owned(m))
        },
        Some(t) => Ok(DashboardPromptArgs { target: t, refresh, interactive }),
    }
}

// ───────────────────────────── from prompt to open request ─────────────────────────────

/// What the prompt asks for: an open request, or a local path that the file system must be
/// asked about first.
#[derive(Debug, Clone, PartialEq, Eq)]
pub enum PromptPlan {
    Open(OpenRequest),
    CheckLocal { path: String, refresh: bool },
}

/// The message for `-i` on a local path.
pub open spec fn interactive_local_message() -> Seq<char> {
    seq!['-', 'i', ' ', '只', '适', '用', '于', ' ', 'U', 'R', 'L']
}

/// What the (trimmed) prompt input plans: a web request for a URL target; for a local target
/// a check of the path (with `~` expanded against some home directory), or the refusal of `-i`.
pub open spec fn prompt_plan_ok(input: Seq<char>, plan: PromptPlan) -> bool {
    match prompt_args_spec(trim(input)) {
        Err(_) => false,
        Ok((t, refresh, interactive)) => if is_http_url(t) {
            plan matches PromptPlan::Open(r) && r.target@ == TargetView::Web(t) && r.refresh
                == refresh && r.interactive == interactive && r.initial_position_override is None
        } else {
            !interactive && (plan matches PromptPlan::CheckLocal { path, refresh: r } && r == refresh
                && exists|home: Option<Seq<char>>| path@ == expand_tilde_spec(t, home))
        },
    }
}

/// The message that refuses the (trimmed) prompt input, if any.
pub open spec fn prompt_plan_error(input: Seq<char>) -> Option<Seq<char>> {
    match prompt_args_spec(trim(input)) {
        Err(e) => Some(e),
        Ok((t, _, interactive)) => if !is_http_url(t) && interactive {
            Some(interactive_local_message())
        } else {
            None
        },
    }
}

/// Plans the open request for the prompt's input.
pub fn prompt_plan(input: &str) -> (res: Result<PromptPlan, String>)
    ensures
        match res {
            Ok(plan) => prompt_plan_error(input@) is None && prompt_plan_ok(input@, plan),
            Err(e) => prompt_plan_error(input@) == Some(e@),
        },
{
    let trimmed = crate::text::trim_string(input);
    let args = match parse_dashboard_prompt_args(trimmed.as_str()) {
        Ok(a) => a,
        Err(e) => {
            return Err(e);
        },
    };
    match crate::dashboard::parse_open_prompt(args.target.as_str()) {
        PromptTarget::Url(url) => Ok(
            PromptPlan::Open(
                OpenRequest {
                    target: ReaderTarget::Web(url),
                    refresh: args.refresh,
                    interactive: args.interactive,
                    initial_position_override: None,
                },
            ),
        ),
        PromptTarget::LocalPath(path) => {
            if args.interactive {
                let m = "-i 只适用于 URL";
                proof {
                    reveal_strlit("-i 只适用于 URL");
                }
                assert(m@ =~= interactive_local_message());
                return Err(owned(m));
            }
            Ok(PromptPlan::CheckLocal { path, refresh: args.refresh })
        },
    }
}

/// What the file system says of a local path.
#[derive(Debug, Clone, PartialEq, Eq)]
pub enum LocalPathStatus {
    Missing,
    Directory,
    Unreadable(String),
    Readable,
}

/// The open request for a checked local path, or the message that refuses it.
pub open spec fn local_open_spec(path: Seq<char>, refresh: bool, status: LocalPathStatus) -> Result<
    (TargetView, bool),
    Seq<char>,
> {
    match status {
        LocalPathStatus::Missing => Err(seq!['路', '径', '不', '存', '在', ':', ' '] + path),
        LocalPathStatus::Directory => Err(seq!['不', '是', '文', '件', ':', ' '] + path),
        LocalPathStatus::Unreadable(err) => Err(
            seq!['无', '法', '打', '开', ':', ' '] + path + seq![' ', '('] + err@ + seq![')'],
        ),
        LocalPathStatus::Readable => Ok(
            (
                if is_epub_spec(path) {
                    TargetView::Epub(path)
                } else {
                    TargetView::Markdown(path)
                },
                refresh,
            ),
        ),
    }
}

/// Opens a local path once the file system has been asked about it: an EPUB reader for
/// `.epub` files, a Markdown reader for other files.
pub fn local_open_request(path: String, refresh: bool, status: LocalPathStatus) -> (res: Result<
    OpenRequest,
    String,
>)
    ensures
        match res {
            Ok(r) => local_open_spec(path@, refresh, status) == Ok::<(TargetView, bool), Seq<char>>(
                (r.target@, r.refresh),
            ) && !r.interactive && r.initial_position_override is None,
            Err(e) => local_open_spec(path@, refresh, status) == Err::<(TargetView, bool), Seq<char>>(
                e@,
            ),
        },
{
    match status {
        LocalPathStatus::Missing => {
            let p = "路径不存在: ";
            proof {
                reveal_strlit("路径不存在: ");
            }
            let m = message_with(p, path.as_str());
            assert(m@ =~= seq!['路', '径', '不', '存', '在', ':', ' '] + path@);
            Err(m)
        },
        LocalPathStatus::Directory => {
            let p = "不是文件: ";
            proof {
                reveal_strlit("不是文件: ");
            }
            let m = message_with(p, path.as_str());
            assert(m@ =~= seq!['不', '是', '文', '件', ':', ' '] + path@);
            Err(m)
        },
        LocalPathStatus::Unreadable(err) => {
            let p = "无法打开: ";
            let open = " (";
            let close = ")";
            proof {
                reveal_strlit("无法打开: ");
                reveal_strlit(" (");
                reveal_strlit(")");
            }
            let mut m = message_with(p, path.as_str());
            push_str(&mut m, open);
            push_str(&mut m, err.as_str());
            push_str(&mut m, close);
            assert(m@ =~= seq!['无', '法', '打', '开', ':', ' '] + path@ + seq![' ', '('] + err@
                + seq![')']);
            Err(m)
        },
        LocalPathStatus::Readable => {
            let target = if is_epub(path.as_str()) {
                ReaderTarget::Epub(path)
            } else {
                ReaderTarget::Markdown(path)
            };
            Ok(OpenRequest { target, refresh, interactive: false, initial_position_override: None })
        },
    }
}

// ───────────────────────────── completion ─────────────────────────────

/// Puts the selected suggestion into the prompt, a directory with a trailing `/`; says whether
/// it was a directory. Without a suggestion at `selected` the prompt stays as it is.
pub fn complete_selected_suggestion(prompt: &mut String, suggestions: &[PathSuggestion], selected: usize)
    -> (res: bool)
    ensures
        selected >= suggestions@.len() ==> !res && final(prompt)@ == old(prompt)@,
        selected < suggestions@.len() ==> {
            let s = suggestions@[selected as int];
            &&& res == s.is_dir
            &&& final(prompt)@ == if s.is_dir && !(s.path@.len() > 0 && s.path@.last() == '/') {
                s.path@.push('/')
            } else {
                s.path@
            }
        },
{
    if selected >= suggestions.len() {
        return false;
    }
    let s = &suggestions[selected];
    *prompt = s.path.clone();
    assert(prompt@ == s.path@);
    let v = chars_of(prompt.as_str());
    if s.is_dir && !(v.len() > 0 && v[v.len() - 1] == '/') {
        push_char(prompt, '/');
    }
    s.is_dir
}

} // verus!
