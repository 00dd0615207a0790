//! The decisions of the chat session: what a typed line asks for, what a slash
//! command means, which model a typed number picks, and what a clean-up
//! selection removes. The terminal loop around them performs the actions.
use vstd::prelude::*;
use crate::models::{history_text, history_turn, prompt_format};
use crate::text::{
    after_first_word, chars_of, concat_chars, digits, digits_exec, eq_lit, first_word, join,
    join_exec, split_first_word, starts_with, string_of, trim, trim_chars, trim_start,
    trim_start_index,
};

verus! {

/// An in-chat command, matched on the whole trimmed line.
pub enum ChatCommand {
    /// `/clear`: choose data to delete.
    Clear,
    /// `/memory`: show what is known about the user.
    Memory,
    /// `/models`: list models.
    Models,
    /// `/system`: show system information.
    System,
    /// `/theme`: list, switch or create themes.
    Theme,
    /// `/help`: list the commands.
    Help,
    /// Any other line starting with `/`.
    Unknown,
}

/// What a line typed in the chat asks for.
pub enum ChatLine {
    /// Nothing (a blank line).
    Skip,
    /// End the session (`exit` or `quit`).
    Quit,
    /// An in-chat command.
    Command(ChatCommand),
    /// A message for the model: the trimmed line.
    Message(String),
}

/// A typed line, over mathematical values.
pub enum ChatLineModel {
    Skip,
    Quit,
    Command(ChatCommand),
    Message(Seq<char>),
}

/// The value of a classified line.
pub open spec fn chat_line_model(l: ChatLine) -> ChatLineModel {
    match l {
        ChatLine::Skip => ChatLineModel::Skip,
        ChatLine::Quit => ChatLineModel::Quit,
        ChatLine::Command(c) => ChatLineModel::Command(c),
        ChatLine::Message(m) => ChatLineModel::Message(m@),
    }
}

/// The command a trimmed line starting with `/` names.
pub open spec fn chat_command(line: Seq<char>) -> ChatCommand {
    if line == "/clear"@ {
        ChatCommand::Clear
    } else if line == "/memory"@ {
        ChatCommand::Memory
    } else if line == "/models"@ {
        ChatCommand::Models
    } else if line == "/system"@ {
        ChatCommand::System
    } else if line == "/theme"@ {
        ChatCommand::Theme
    } else if line == "/help"@ {
        ChatCommand::Help
    } else {
        ChatCommand::Unknown
    }
}

/// What the typed `input` asks for: it is trimmed; blank is nothing, `exit`
/// and `quit` end the session, `/...` is a command, anything else a message.
pub open spec fn chat_line(input: Seq<char>) -> ChatLineModel {
    let l = trim(input);
    if l.len() == 0 {
        ChatLineModel::Skip
    } else if l == "exit"@ || l == "quit"@ {
        ChatLineModel::Quit
    } else if l[0] == '/' {
        ChatLineModel::Command(chat_command(l))
    } else {
        ChatLineModel::Message(l)
    }
}

fn chat_command_exec(v: &[char]) -> (r: ChatCommand)
    ensures
        r == chat_command(v@),
{
    if eq_lit(v, "/clear") {
        ChatCommand::Clear
    } else if eq_lit(v, "/memory") {
        ChatCommand::Memory
    } else if eq_lit(v, "/models") {
        ChatCommand::Models
    } else if eq_lit(v, "/system") {
        ChatCommand::System
    } else if eq_lit(v, "/theme") {
        ChatCommand::Theme
    } else if eq_lit(v, "/help") {
        ChatCommand::Help
    } else {
        ChatCommand::Unknown
    }
}

/// Classify a line typed in the chat.
pub fn classify_chat_line(input: &str) -> (r: ChatLine)
    ensures
        chat_line_model(r) == chat_line(input@),
{
    let l = trim_chars(&chars_of(input));
    if l.len() == 0 {
        ChatLine::Skip
    } else if eq_lit(&l, "exit") || eq_lit(&l, "quit") {
        ChatLine::Quit
    } else if l[0] == '/' {
        ChatLine::Command(chat_command_exec(&l))
    } else {
        ChatLine::Message(string_of(&l))
    }
}

/// Every line that the chat reads as a command, once trimmed, holds a word,
/// so it can be read as a slash command.
pub proof fn law_command_lines_parse(input: Seq<char>)
    requires
        chat_line(input) is Command,
    ensures
        trim_start(trim(input)).len() > 0,
{
    let l = trim(input);
    assert(l.len() > 0 && l[0] == '/');
    assert(!crate::text::is_white_space(l[0]));
    assert(trim_start(l) == l);
}

/// What `/clear` is asked to delete.
pub enum ClearTarget {
    /// Everything; the session ends.
    All,
    /// The chat history.
    Chat,
    /// The user profile.
    Profile,
    /// The downloaded models.
    Models,
    /// The configuration.
    Config,
}

/// The argument of `/clear`.
pub enum ClearArg {
    /// None was given: the usage is shown.
    Missing,
    /// A known target.
    Target(ClearTarget),
    /// An unknown sub-command.
    Unknown,
}

/// A slash command with its arguments, taken word by word.
pub enum SlashCommand {
    /// `/exit`: end the session.
    Exit,
    /// `/help`: list the commands.
    Help,
    /// `/bug`: how to report an issue.
    Bug,
    /// `/clear [target]`.
    Clear(ClearArg),
    /// `/memory`: show what is known about the user.
    Memory,
    /// `/models`: list the models.
    Models,
    /// `/system`: show system information.
    System,
    /// `/theme`: list the themes; `/theme name`: switch to `name`.
    Theme(Option<String>),
    /// Anything else.
    Unknown,
}

/// A slash command, over mathematical values.
pub enum SlashModel {
    Exit,
    Help,
    Bug,
    Clear(ClearArg),
    Memory,
    Models,
    System,
    Theme(Option<Seq<char>>),
    Unknown,
}

/// The value of a slash command.
pub open spec fn slash_model(c: SlashCommand) -> SlashModel {
    match c {
        SlashCommand::Exit => SlashModel::Exit,
        SlashCommand::Help => SlashModel::Help,
        SlashCommand::Bug => SlashModel::Bug,
        SlashCommand::Clear(a) => SlashModel::Clear(a),
        SlashCommand::Memory => SlashModel::Memory,
        SlashCommand::Models => SlashModel::Models,
        SlashCommand::System => SlashModel::System,
        SlashCommand::Theme(None) => SlashModel::Theme(None),
        SlashCommand::Theme(Some(n)) => SlashModel::Theme(Some(n@)),
        SlashCommand::Unknown => SlashModel::Unknown,
    }
}

/// The argument of `/clear` given its second word `arg`, if any.
pub open spec fn clear_arg(has_arg: bool, arg: Seq<char>) -> ClearArg {
    if !has_arg {
        ClearArg::Missing
    } else if arg == "all"@ {
        ClearArg::Target(ClearTarget::All)
    } else if arg == "chat"@ {
        ClearArg::Target(ClearTarget::Chat)
    } else if arg == "profile"@ {
        ClearArg::Target(ClearTarget::Profile)
    } else if arg == "models"@ {
        ClearArg::Target(ClearTarget::Models)
    } else if arg == "config"@ {
        ClearArg::Target(ClearTarget::Config)
    } else {
        ClearArg::Unknown
    }
}

/// The command that `line` names: its first word selects the command, its
/// second word (when there is one) is the argument of `/clear` and `/theme`.
pub open spec fn slash_command(line: Seq<char>) -> SlashModel {
    let cmd = first_word(line);
    let rest = after_first_word(line);
    let has_arg = trim_start(rest).len() > 0;
    let arg = first_word(rest);
    if cmd == "/exit"@ {
        SlashModel::Exit
    } else if cmd == "/help"@ {
        SlashModel::Help
    } else if cmd == "/bug"@ {
        SlashModel::Bug
    } else if cmd == "/clear"@ {
        SlashModel::Clear(clear_arg(has_arg, arg))
    } else if cmd == "/memory"@ {
        SlashModel::Memory
    } else if cmd == "/models"@ {
        SlashModel::Models
    } else if cmd == "/system"@ {
        SlashModel::System
    } else if cmd == "/theme"@ {
        if has_arg {
            SlashModel::Theme(Some(arg))
        } else {
            SlashModel::Theme(None)
        }
    } else {
        SlashModel::Unknown
    }
}

fn clear_arg_exec(has_arg: bool, arg: &[char]) -> (r: ClearArg)
    ensures
        r == clear_arg(has_arg, arg@),
{
    if !has_arg {
        ClearArg::Missing
    } else if eq_lit(arg, "all") {
        ClearArg::Target(ClearTarget::All)
    } else if eq_lit(arg, "chat") {
        ClearArg::Target(ClearTarget::Chat)
    } else if eq_lit(arg, "profile") {
        ClearArg::Target(ClearTarget::Profile)
    } else if eq_lit(arg, "models") {
        ClearArg::Target(ClearTarget::Models)
    } else if eq_lit(arg, "config") {
        ClearArg::Target(ClearTarget::Config)
    } else {
        ClearArg::Unknown
    }
}

/// Read a slash command with its arguments. The line must hold a word.
pub fn parse_slash_command(line: &str) -> (r: SlashCommand)
    requires
        trim_start(line@).len() > 0,
    ensures
        slash_model(r) == slash_command(line@),
{
    let v = chars_of(line);
    let (cmd, rest) = split_first_word(&v);
    let has_arg = trim_start_index(&rest) < rest.len();
    let (arg, _) = split_first_word(&rest);
    if eq_lit(&cmd, "/exit") {
        SlashCommand::Exit
    } else if eq_lit(&cmd, "/help") {
        SlashCommand::Help
    } else if eq_lit(&cmd, "/bug") {
        SlashCommand::Bug
    } else if eq_lit(&cmd, "/clear") {
        SlashCommand::Clear(clear_arg_exec(has_arg, &arg))
    } else if eq_lit(&cmd, "/memory") {
        SlashCommand::Memory
    } else if eq_lit(&cmd, "/models") {
        SlashCommand::Models
    } else if eq_lit(&cmd, "/system") {
        SlashCommand::System
    } else if eq_lit(&cmd, "/theme") {
        if has_arg {
            SlashCommand::Theme(Some(string_of(&arg)))
        } else {
            SlashCommand::Theme(None)
        }
    } else {
        SlashCommand::Unknown
    }
}

/// Whether `c` is an ASCII decimal digit.
pub open spec fn is_digit(c: char) -> bool {
    '0' <= c <= '9'
}

/// The number that the decimal digits `s` write.
pub open spec fn decimal_value(s: Seq<char>) -> nat
    decreases s.len(),
{
    if s.len() == 0 {
        0
    } else {
        10 * decimal_value(s.drop_last()) + (s.last() as nat - '0' as nat) as nat
    }
}

/// The value of one or more decimal digits `d` that fits in `usize`.
pub open spec fn digits_usize(d: Seq<char>) -> Option<usize> {
    if d.len() > 0 && (forall|i: int| 0 <= i < d.len() ==> is_digit(#[trigger] d[i]))
        && decimal_value(d) <= usize::MAX {
        Some(decimal_value(d) as usize)
    } else {
        None
    }
}

/// What `str::parse::<usize>` gives: an optional `+`, then one or more
/// decimal digits whose value fits in `usize`.
pub open spec fn parsed_usize(s: Seq<char>) -> Option<usize> {
    if s.len() > 0 && s[0] == '+' {
        digits_usize(s.drop_first())
    } else {
        digits_usize(s)
    }
}

proof fn lemma_decimal_prefix_mono(d: Seq<char>, i: int, j: int)
    requires
        0 <= i <= j <= d.len(),
        forall|k: int| 0 <= k < d.len() ==> is_digit(#[trigger] d[k]),
    ensures
        decimal_value(d.take(i)) <= decimal_value(d.take(j)),
    decreases j - i,
{
    if i < j {
        lemma_decimal_prefix_mono(d, i, j - 1);
        assert(d.take(j).drop_last() =~= d.take(j - 1));
    }
}

/// `str::parse::<usize>` on the characters `v`.
pub fn parse_usize(v: &[char]) -> (r: Option<usize>)
    ensures
        r == parsed_usize(v@),
{
    let start: usize = if v.len() > 0 && v[0] == '+' {
        1
    } else {
        0
    };
    let ghost d = if v@.len() > 0 && v@[0] == '+' {
        v@.drop_first()
    } else {
        v@
    };
    assert(d =~= v@.skip(start as int));
    if start >= v.len() {
        return None;
    }
    let mut val: usize = 0;
    let mut i: usize = start;
    while i < v.len()
        invariant
            start <= i <= v@.len(),
            d == v@.skip(start as int),
            d == (if v@.len() > 0 && v@[0] == '+' {
                v@.drop_first()
            } else {
                v@
            }),
            d.len() > 0,
            forall|k: int| 0 <= k < i - start ==> is_digit(#[trigger] d[k]),
            val as nat == decimal_value(d.take(i - start)),
        decreases v.len() - i,
    {
        let c = v[i];
        assert(d[i - start] == c);
        if !('0' <= c && c <= '9') {
            assert(!is_digit(d[i - start]));
            assert(digits_usize(d) is None);
            return None;
        }
        let digit = (c as u32 - '0' as u32) as usize;
        assert(d.take(i - start + 1).drop_last() =~= d.take(i - start));
        assert(d.take(i - start + 1).last() == c);
        assert(decimal_value(d.take(i - start + 1)) == 10 * val + digit);
        if val > (usize::MAX - digit) / 10 {
            assert(10 * val + digit > usize::MAX) by (nonlinear_arith)
                requires
                    val > (usize::MAX - digit) / 10,
                    digit <= 9,
            ;
            let ghost all_digits = forall|k: int| 0 <= k < d.len() ==> is_digit(#[trigger] d[k]);
            proof {
                if all_digits {
                    lemma_decimal_prefix_mono(d, i - start + 1, d.len() as int);
                    assert(d.take(d.len() as int) =~= d);
                }
            }
            assert(digits_usize(d) is None);
            return None;
        }
        assert(10 * val + digit <= usize::MAX) by (nonlinear_arith)
            requires
                val <= (usize::MAX - digit) / 10,
                digit <= 9,
        ;
        val = val * 10 + digit;
        i = i + 1;
    }
    assert(d.take(d.len() as int) =~= d);
    Some(val)
}

/// The index of the model that a typed choice picks among `count` models
/// numbered from 1.
pub open spec fn model_choice(input: Seq<char>, count: nat) -> Option<nat> {
    match parsed_usize(trim(input)) {
        Some(c) => if 1 <= c <= count {
            Some((c - 1) as nat)
        } else {
            None
        },
        None => None,
    }
}

/// The index of the model that the typed `input` picks among `count` models
/// numbered from 1, or `None` for an invalid choice.
pub fn parse_model_choice(input: &str, count: usize) -> (r: Option<usize>)
    ensures
        r matches Some(i) ==> model_choice(input@, count as nat) == Some(i as nat),
        r is None <==> model_choice(input@, count as nat) is None,
{
    let t = trim_chars(&chars_of(input));
    match parse_usize(&t) {
        Some(c) => if c >= 1 && c <= count {
            Some(c - 1)
        } else {
            None
        },
        None => None,
    }
}

/// An entry of the clean-up menu.
#[derive(Clone, Copy, PartialEq, Eq, Structural)]
pub enum ClearAction {
    /// The conversation history.
    Conversations,
    /// The learned user profile.
    Profile,
    /// Only the remembered facts.
    RememberedFacts,
    /// The downloaded model file of this index among the listed model files.
    Model(usize),
    /// The configuration file.
    Config,
    /// The whole data directory.
    Everything,
}

/// What the memory store holds, as the clean-up menu counts it.
#[derive(Clone, Copy)]
pub struct StoreCounts {
    /// Stored conversation turns.
    pub turns: u64,
    /// Learned profile entries.
    pub profile_entries: u64,
    /// Remembered facts.
    pub remembered: u64,
}

/// The entries offered for an empty-or-not part of the data.
pub open spec fn offer(present: bool, a: ClearAction) -> Seq<ClearAction> {
    if present {
        seq![a]
    } else {
        seq![]
    }
}

/// The clean-up menu: what the memory store holds (when it could be opened),
/// each of `models` model files, the configuration when it exists, and
/// always, last, everything.
pub open spec fn clear_menu_of(mem: Option<StoreCounts>, models: nat, config_exists: bool) -> Seq<
    ClearAction,
> {
    let m = match mem {
        Some(c) => offer(c.turns > 0, ClearAction::Conversations) + offer(
            c.profile_entries > 0,
            ClearAction::Profile,
        ) + offer(c.remembered > 0, ClearAction::RememberedFacts),
        None => seq![],
    };
    m + Seq::new(models, |i: int| ClearAction::Model(i as usize)) + offer(
        config_exists,
        ClearAction::Config,
    ) + seq![ClearAction::Everything]
}

/// The entries of the clean-up menu, in order.
pub fn clear_menu(mem: Option<StoreCounts>, models: usize, config_exists: bool) -> (r: Vec<
    ClearAction,
>)
    ensures
        r@ == clear_menu_of(mem, models as nat, config_exists),
{
    let mut r: Vec<ClearAction> = Vec::new();
    if let Some(c) = mem {
        if c.turns > 0 {
            r.push(ClearAction::Conversations);
        }
        if c.profile_entries > 0 {
            r.push(ClearAction::Profile);
        }
        if c.remembered > 0 {
            r.push(ClearAction::RememberedFacts);
        }
    }
    let ghost head = r@;
    assert(head =~= match mem {
        Some(c) => offer(c.turns > 0, ClearAction::Conversations) + offer(
            c.profile_entries > 0,
            ClearAction::Profile,
        ) + offer(c.remembered > 0, ClearAction::RememberedFacts),
        None => seq![],
    });
    let mut i: usize = 0;
    while i < models
        invariant
            i <= models,
            r@ == head + Seq::new(i as nat, |k: int| ClearAction::Model(k as usize)),
        decreases models - i,
    {
        r.push(ClearAction::Model(i));
        i = i + 1;
        assert(r@ =~= head + Seq::new(i as nat, |k: int| ClearAction::Model(k as usize)));
    }
    let ghost with_models = r@;
    if config_exists {
        r.push(ClearAction::Config);
    }
    r.push(ClearAction::Everything);
    assert(r@ =~= with_models + offer(config_exists, ClearAction::Config) + seq![
        ClearAction::Everything,
    ]);
    r
}

/// What a confirmed clean-up selection does.
pub enum ClearPlan {
    /// Nothing was selected.
    Cancelled,
    /// Everything was among the selection: the data directory goes, and
    /// nothing else is done.
    WipeAll,
    /// The selected entries, each removed in selection order.
    Steps(Vec<ClearAction>),
}

/// A clean-up plan, over mathematical values.
pub enum ClearPlanModel {
    Cancelled,
    WipeAll,
    Steps(Seq<ClearAction>),
}

/// The value of a plan.
pub open spec fn clear_plan_model(p: ClearPlan) -> ClearPlanModel {
    match p {
        ClearPlan::Cancelled => ClearPlanModel::Cancelled,
        ClearPlan::WipeAll => ClearPlanModel::WipeAll,
        ClearPlan::Steps(v) => ClearPlanModel::Steps(v@),
    }
}

/// What the selection `sel` (indices into `menu`) does.
pub open spec fn clear_plan_of(menu: Seq<ClearAction>, sel: Seq<usize>) -> ClearPlanModel {
    if sel.len() == 0 {
        ClearPlanModel::Cancelled
    } else if exists|i: int| 0 <= i < sel.len() && menu[#[trigger] sel[i] as int] is Everything {
        ClearPlanModel::WipeAll
    } else {
        ClearPlanModel::Steps(sel.map_values(|j: usize| menu[j as int]))
    }
}

/// What the selected menu entries do.
pub fn plan_clear(menu: &[ClearAction], selected: &[usize]) -> (r: ClearPlan)
    requires
        forall|i: int| 0 <= i < selected@.len() ==> (#[trigger] selected@[i]) < menu@.len(),
    ensures
        clear_plan_model(r) == clear_plan_of(menu@, selected@),
{
    if selected.len() == 0 {
        return ClearPlan::Cancelled;
    }
    let mut steps: Vec<ClearAction> = Vec::new();
    let mut i: usize = 0;
    while i < selected.len()
        invariant
            i <= selected@.len(),
            forall|k: int| 0 <= k < selected@.len() ==> (#[trigger] selected@[k]) < menu@.len(),
            forall|k: int| 0 <= k < i ==> !(menu@[#[trigger] selected@[k] as int] is Everything),
            steps@ == selected@.take(i as int).map_values(|j: usize| menu@[j as int]),
        decreases selected.len() - i,
    {
        let a = menu[selected[i]];
        if let ClearAction::Everything = a {
            return ClearPlan::WipeAll;
        }
        steps.push(a);
        assert(selected@.take(i + 1) =~= selected@.take(i as int).push(selected@[i as int]));
        i = i + 1;
        assert(steps@ =~= selected@.take(i as int).map_values(|j: usize| menu@[j as int]));
    }
    assert(selected@.take(selected@.len() as int) =~= selected@);
    ClearPlan::Steps(steps)
}

/// Whether carrying out `steps` leaves Aide without a usable model: the
/// configuration goes, or the model file that is active (`active`) does.
pub open spec fn clear_needs_setup(steps: Seq<ClearAction>, active: Option<usize>) -> bool {
    exists|i: int|
        0 <= i < steps.len() && (#[trigger] steps[i] == ClearAction::Config || (
        steps[i] matches ClearAction::Model(m) && active == Some(m)))
}

/// Whether the clean-up `steps` leave Aide in need of setup.
pub fn needs_setup_after(steps: &[ClearAction], active: Option<usize>) -> (r: bool)
    ensures
        r == clear_needs_setup(steps@, active),
{
    let mut i: usize = 0;
    while i < steps.len()
        invariant
            i <= steps@.len(),
            forall|k: int|
                0 <= k < i ==> !(#[trigger] steps@[k] == ClearAction::Config || (
                steps@[k] matches ClearAction::Model(m) && active == Some(m))),
        decreases steps.len() - i,
    {
        match steps[i] {
            ClearAction::Config => {
                return true;
            },
            ClearAction::Model(m) => {
                if let Some(a) = active {
                    if a == m {
                        return true;
                    }
                }
            },
            _ => {},
        }
        i = i + 1;
    }
    false
}

/// The history entries that record one exchange: the user's message and the
/// reply, as the prompt formats read them.
pub open spec fn turn_entries(user: Seq<char>, reply: Seq<char>) -> Seq<Seq<char>> {
    seq!["User: "@ + user, "Assistant: "@ + reply]
}

/// The texts of history entries.
pub open spec fn history_view(h: Seq<String>) -> Seq<Seq<char>> {
    h.map_values(|s: String| s@)
}

/// Record one exchange at the end of the chat history.
pub fn record_turn(history: &mut Vec<String>, user: &str, reply: &str)
    ensures
        history_view(final(history)@) == history_view(old(history)@) + turn_entries(user@, reply@),
        final(history)@.len() == old(history)@.len() + 2,
{
    let ghost before = history_view(history@);
    let u = string_of(&concat_chars(&chars_of("User: "), &chars_of(user)));
    let a = string_of(&concat_chars(&chars_of("Assistant: "), &chars_of(reply)));
    history.push(u);
    history.push(a);
    assert(history_view(history@) =~= before + turn_entries(user@, reply@));
}

/// The chat history that earlier exchanges (oldest first) give.
pub fn history_from_pairs(recent: &[(String, String)]) -> (r: Vec<String>)
    ensures
        r@.len() == 2 * recent@.len(),
        forall|i: int|
            0 <= i < recent@.len() ==> history_view(r@).subrange(2 * i, 2 * i + 2)
                == turn_entries((#[trigger] recent@[i]).0@, recent@[i].1@),
{
    let mut r: Vec<String> = Vec::new();
    let mut i: usize = 0;
    while i < recent.len()
        invariant
            i <= recent@.len(),
            r@.len() == 2 * i,
            forall|k: int|
                0 <= k < i ==> history_view(r@).subrange(2 * k, 2 * k + 2) == turn_entries(
                    (#[trigger] recent@[k]).0@,
                    recent@[k].1@,
                ),
        decreases recent.len() - i,
    {
        let ghost before = r@;
        record_turn(&mut r, recent[i].0.as_str(), recent[i].1.as_str());
        assert forall|k: int| 0 <= k < i + 1 implies history_view(r@).subrange(2 * k, 2 * k + 2)
            == turn_entries((#[trigger] recent@[k]).0@, recent@[k].1@) by {
            if k < i {
                assert(history_view(r@).subrange(2 * k, 2 * k + 2) =~= history_view(
                    before,
                ).subrange(2 * k, 2 * k + 2));
            } else {
                assert(history_view(r@).subrange(2 * k, 2 * k + 2) =~= turn_entries(
                    recent@[k].0@,
                    recent@[k].1@,
                ));
            }
        }
        i = i + 1;
    }
    r
}

/// A recorded exchange reaches the next prompt as one user turn with the
/// message and one assistant turn with the reply, after the earlier turns.
pub proof fn law_recorded_turn_in_prompt(
    template: Seq<char>,
    h: Seq<Seq<char>>,
    user: Seq<char>,
    reply: Seq<char>,
)
    ensures
        ({
            let f = prompt_format(template);
            history_text(f, h + turn_entries(user, reply)) == history_text(f, h) + f.user_pre
                + user + f.user_post + f.assistant_pre + reply + f.assistant_post
        }),
{
    reveal_strlit("User: ");
    reveal_strlit("Assistant: ");
    let f = prompt_format(template);
    let u = "User: "@ + user;
    let a = "Assistant: "@ + reply;
    let h1 = h + seq![u];
    let h2 = h + turn_entries(user, reply);
    assert(h2.drop_last() =~= h1);
    assert(h1.drop_last() =~= h);
    assert(u.subrange(0, 6) =~= "User: "@);
    assert(u.skip(6) =~= user);
    assert(a.subrange(0, 11) =~= "Assistant: "@);
    assert(a.skip(11) =~= reply);
    assert(!starts_with(a, "User: "@)) by {
        assert(a[0] == 'A');
        if starts_with(a, "User: "@) {
            assert(a.subrange(0, 6)[0] == 'U');
        }
    }
    assert(history_turn(f, u) == f.user_pre + user + f.user_post);
    assert(history_turn(f, a) == f.assistant_pre + reply + f.assistant_post);
    assert(h2.last() == a);
    assert(h1.last() == u);
    assert(history_text(f, h1) == history_text(f, h) + history_turn(f, u));
    assert(history_text(f, h2) == history_text(f, h1) + history_turn(f, a));
    assert(history_text(f, h2) =~= history_text(f, h) + (f.user_pre + user + f.user_post) + (
    f.assistant_pre + reply + f.assistant_post));
}

/// The name offered for saving the `idx`-th (from 0) image of a reply made at
/// `ts` seconds: `aide-image-<ts>-<idx + 1>.<ext>`.
pub open spec fn image_file_name(ts: nat, idx: nat, ext: Seq<char>) -> Seq<char> {
    "aide-image-"@ + digits(ts, 10) + "-"@ + digits(idx + 1, 10) + "."@ + ext
}

/// The name offered for saving an image.
pub fn suggested_image_name(ts: u64, idx: u64, ext: &str) -> (r: String)
    requires
        idx < u64::MAX,
    ensures
        r@ == image_file_name(ts as nat, idx as nat, ext@),
{
    let mut v = chars_of("aide-image-");
    v = concat_chars(&v, &digits_exec(ts, 10));
    v = concat_chars(&v, &chars_of("-"));
    v = concat_chars(&v, &digits_exec(idx + 1, 10));
    v = concat_chars(&v, &chars_of("."));
    v = concat_chars(&v, &chars_of(ext));
    string_of(&v)
}

/// The file an image is saved to: the typed name, trimmed, or the offered
/// name when nothing was typed.
pub open spec fn output_file_name(typed: Seq<char>, offered: Seq<char>) -> Seq<char> {
    if trim(typed).len() == 0 {
        offered
    } else {
        trim(typed)
    }
}

/// The file an image is saved to.
pub fn choose_output_name(typed: &str, offered: &str) -> (r: String)
    ensures
        r@ == output_file_name(typed@, offered@),
{
    let t = trim_chars(&chars_of(typed));
    if t.len() == 0 {
        string_of(&chars_of(offered))
    } else {
        string_of(&t)
    }
}

/// The system prompt of a turn: the profile prompt, followed by the facts
/// recalled for the message (when there are any), separated by `; `.
pub open spec fn prompt_with_facts(prompt: Seq<char>, facts: Seq<Seq<char>>) -> Seq<char> {
    if facts.len() == 0 {
        prompt
    } else {
        prompt + "\nRelevant facts: "@ + join(facts, "; "@)
    }
}

/// Add the recalled facts to the system prompt of a turn.
pub fn with_relevant_facts(prompt: &str, facts: &[String]) -> (r: String)
    ensures
        r@ == prompt_with_facts(prompt@, facts@.map_values(|f: String| f@)),
{
    if facts.len() == 0 {
        return string_of(&chars_of(prompt));
    }
    let mut parts: Vec<Vec<char>> = Vec::new();
    let mut i: usize = 0;
    while i < facts.len()
        invariant
            i <= facts@.len(),
            parts@.map_values(|x: Vec<char>| x@) == facts@.map_values(|f: String| f@).take(i as int),
        decreases facts.len() - i,
    {
        let ghost before = parts@;
        parts.push(chars_of(facts[i].as_str()));
        assert(parts@.map_values(|x: Vec<char>| x@) =~= before.map_values(|x: Vec<char>| x@).push(
            facts@[i as int]@,
        ));
        i = i + 1;
        assert(facts@.map_values(|f: String| f@).take(i as int) =~= facts@.map_values(
            |f: String| f@,
        ).take(i - 1).push(facts@[i - 1]@));
    }
    assert(facts@.map_values(|f: String| f@).take(facts@.len() as int) =~= facts@.map_values(
        |f: String| f@,
    ));
    let joined = join_exec(&parts, &chars_of("; "));
    let head = concat_chars(&chars_of(prompt), &chars_of("\nRelevant facts: "));
    string_of(&concat_chars(&head, &joined))
}

/// The system prompt with the name of the active theme appended, so that the
/// assistant can answer questions about the current settings.
pub open spec fn prompt_with_theme(prompt: Seq<char>, theme: Seq<char>) -> Seq<char> {
    prompt + " Active theme: "@ + theme + "."@
}

/// Append the active theme to the system prompt.
pub fn with_active_theme(prompt: &str, theme: &str) -> (r: String)
    ensures
        r@ == prompt_with_theme(prompt@, theme@),
{
    let v = concat_chars(&chars_of(prompt), &chars_of(" Active theme: "));
    let v = concat_chars(&v, &chars_of(theme));
    string_of(&concat_chars(&v, &chars_of(".")))
}

/// What a named clean-up target asks to delete (`None` for an unknown name).
pub fn parse_clear_target(target: &str) -> (r: Option<ClearTarget>)
    ensures
        match clear_arg(true, target@) {
            ClearArg::Target(t) => r == Some(t),
            _ => r is None,
        },
{
    match clear_arg_exec(true, &chars_of(target)) {
        ClearArg::Target(t) => Some(t),
        _ => None,
    }
}

/// A line break becomes a space.
pub open spec fn unbreak(c: char) -> char {
    if c == '\n' || c == '\r' {
        ' '
    } else {
        c
    }
}

/// The image-generation prompt: line breaks become spaces, and the whole is trimmed.
pub open spec fn clean_prompt(p: Seq<char>) -> Seq<char> {
    trim(p.map_values(|c: char| unbreak(c)))
}

/// Prepare a prompt for image generation.
pub fn clean_sd_prompt(prompt: &str) -> (r: String)
    ensures
        r@ == clean_prompt(prompt@),
{
    let v = chars_of(prompt);
    let mut w: Vec<char> = Vec::new();
    let mut i: usize = 0;
    while i < v.len()
        invariant
            i <= v@.len(),
            w@ == v@.take(i as int).map_values(|c: char| unbreak(c)),
        decreases v.len() - i,
    {
        let c = v[i];
        w.push(if c == '\n' || c == '\r' { ' ' } else { c });
        i = i + 1;
        assert(w@ =~= v@.take(i as int).map_values(|c: char| unbreak(c)));
    }
    assert(v@.take(v@.len() as int) =~= v@);
    string_of(&trim_chars(&w))
}

/// The bytes shown as downloaded after a chunk arrives: never more than the
/// announced total.
pub fn download_progress(done: u64, chunk: u64, total: u64) -> (r: u64)
    requires
        done + chunk <= u64::MAX,
    ensures
        r == if done + chunk < total { done + chunk } else { total as int },
{
    let sum = done + chunk;
    if sum < total {
        sum
    } else {
        total
    }
}

} // verus!
