//! The popup that asks for the API keys that the models need and that
//! neither the environment nor the keys entered before provide.
use vstd::prelude::*;
use crate::text::chars_of;

verus! {

/// How many keys the popup asks for at most.
pub const KEY_INPUT_COUNT: usize = 4;

/// A key that a model needs: the environment variable that holds it, the
/// agent whose model needs it, and whether the environment sets it.
pub open spec fn needed_view(n: (String, String, bool)) -> (Seq<char>, Seq<char>, bool) {
    (n.0@, n.1@, n.2)
}

pub open spec fn names_view(names: Seq<String>) -> Seq<Seq<char>> {
    names.map_values(|s: String| s@)
}

/// The names of the keys entered before.
pub open spec fn entered_names(keys: Seq<(String, String)>) -> Seq<Seq<char>> {
    keys.map_values(|k: (String, String)| k.0@)
}

/// A needed key is missing where the environment does not set it and it
/// was not entered before.
pub open spec fn is_missing(n: (Seq<char>, Seq<char>, bool), entered: Seq<Seq<char>>) -> bool {
    !n.2 && !entered.contains(n.0)
}

/// The agents, in order, that need the missing key held by `env_var`.
pub open spec fn agents_missing(
    needed: Seq<(Seq<char>, Seq<char>, bool)>,
    entered: Seq<Seq<char>>,
    env_var: Seq<char>,
) -> Seq<Seq<char>>
    decreases needed.len(),
{
    if needed.len() == 0 {
        Seq::empty()
    } else {
        let prev = agents_missing(needed.drop_last(), entered, env_var);
        let n = needed.last();
        if is_missing(n, entered) && n.0 == env_var {
            prev.push(n.1)
        } else {
            prev
        }
    }
}

/// The order of `String`s: by their characters, from the first, a prefix
/// before the longer text.
pub open spec fn text_less(a: Seq<char>, b: Seq<char>) -> bool
    decreases a.len(),
{
    if a.len() == 0 {
        b.len() > 0
    } else if b.len() == 0 {
        false
    } else if a[0] != b[0] {
        (a[0] as int) < (b[0] as int)
    } else {
        text_less(a.drop_first(), b.drop_first())
    }
}

proof fn lemma_text_less_irreflexive(a: Seq<char>)
    ensures
        !text_less(a, a),
    decreases a.len(),
{
    if a.len() > 0 {
        lemma_text_less_irreflexive(a.drop_first());
    }
}

proof fn lemma_text_less_transitive(a: Seq<char>, b: Seq<char>, c: Seq<char>)
    requires
        text_less(a, b),
        text_less(b, c),
    ensures
        text_less(a, c),
    decreases a.len(),
{
    if a.len() > 0 && b.len() > 0 && c.len() > 0 && a[0] == b[0] && b[0] == c[0] {
        lemma_text_less_transitive(a.drop_first(), b.drop_first(), c.drop_first());
    }
}

proof fn lemma_text_less_total(a: Seq<char>, b: Seq<char>)
    ensures
        a == b || text_less(a, b) || text_less(b, a),
    decreases a.len(),
{
    if a.len() > 0 && b.len() > 0 && a[0] == b[0] {
        lemma_text_less_total(a.drop_first(), b.drop_first());
        if a.drop_first() == b.drop_first() {
            assert(a =~= seq![a[0]] + a.drop_first());
            assert(b =~= seq![b[0]] + b.drop_first());
        }
    } else if a.len() == 0 && b.len() == 0 {
        assert(a =~= b);
    }
}

/// Whether `a` comes before `b` in the order of `String`s.
fn text_less_exec(a: &String, b: &String) -> (r: bool)
    ensures
        r == text_less(a@, b@),
{
    let av = chars_of(a.as_str());
    let bv = chars_of(b.as_str());
    let mut i: usize = 0;
    assert(a@.skip(0) =~= a@ && b@.skip(0) =~= b@);
    while i < av.len() && i < bv.len() && av[i] == bv[i]
        invariant
            av@ == a@,
            bv@ == b@,
            i <= av@.len(),
            i <= bv@.len(),
            text_less(a@, b@) == text_less(a@.skip(i as int), b@.skip(i as int)),
        decreases av@.len() - i,
    {
        proof {
            let sa = a@.skip(i as int);
            let sb = b@.skip(i as int);
            assert(sa.drop_first() =~= a@.skip(i + 1));
            assert(sb.drop_first() =~= b@.skip(i + 1));
        }
        i += 1;
    }
    proof {
        if i < av@.len() {
            assert(a@.skip(i as int)[0] == a@[i as int]);
        }
        if i < bv@.len() {
            assert(b@.skip(i as int)[0] == b@[i as int]);
        }
    }
    if i == av.len() {
        assert(a@.skip(i as int).len() == 0);
        i < bv.len()
    } else if i == bv.len() {
        assert(b@.skip(i as int).len() == 0);
        false
    } else {
        let x = av[i];
        let y = bv[i];
        assert(x != y);
        x < y
    }
}

/// The missing keys are grouped by their environment variable, in the
/// order of `String`s, each with the agents that need it.
pub open spec fn missing_keys_wf(
    r: Seq<(String, Vec<String>)>,
    needed: Seq<(Seq<char>, Seq<char>, bool)>,
    entered: Seq<Seq<char>>,
) -> bool {
    &&& forall|i: int, j: int| 0 <= i < j < r.len() ==> text_less(#[trigger] r[i].0@, #[trigger] r[j].0@)
    &&& forall|i: int|
        0 <= i < r.len() ==> names_view(#[trigger] r[i].1@) == agents_missing(needed, entered, r[i].0@)
            && agents_missing(needed, entered, r[i].0@).len() > 0
    &&& forall|k: int|
        0 <= k < needed.len() && is_missing(#[trigger] needed[k], entered) ==> exists|i: int|
            0 <= i < r.len() && #[trigger] r[i].0@ == needed[k].0
}

proof fn lemma_agents_missing_empty(
    needed: Seq<(Seq<char>, Seq<char>, bool)>,
    entered: Seq<Seq<char>>,
    env_var: Seq<char>,
)
    requires
        forall|k: int| 0 <= k < needed.len() && is_missing(needed[k], entered) ==> needed[k].0 != env_var,
    ensures
        agents_missing(needed, entered, env_var).len() == 0,
    decreases needed.len(),
{
    if needed.len() > 0 {
        lemma_agents_missing_empty(needed.drop_last(), entered, env_var);
    }
}

/// The keys that the models need and that neither the environment nor the
/// keys entered before provide: one for each environment variable, in the
/// order of `String`s, with the agents that need it in the order of
/// `needed`.
pub fn missing_api_keys(needed: &Vec<(String, String, bool)>, entered: &Vec<(String, String)>) -> (r: Vec<(String, Vec<String>)>)
    ensures
        missing_keys_wf(r@, needed@.map_values(|n: (String, String, bool)| needed_view(n)), entered_names(entered@)),
{
    let ghost nv = needed@.map_values(|n: (String, String, bool)| needed_view(n));
    let ghost en = entered_names(entered@);
    let mut r: Vec<(String, Vec<String>)> = Vec::new();
    let mut k: usize = 0;
    while k < needed.len()
        invariant
            k <= needed@.len(),
            nv == needed@.map_values(|n: (String, String, bool)| needed_view(n)),
            en == entered_names(entered@),
            missing_keys_wf(r@, nv.take(k as int), en),
        decreases needed@.len() - k,
    {
        let ghost pre = nv.take(k as int);
        let ghost post = nv.take(k + 1);
        proof {
            assert(post.drop_last() =~= pre);
            assert(post.last() == nv[k as int]);
        }
        let (env_var, agent, set) = (&needed[k].0, &needed[k].1, needed[k].2);
        let entered_before = is_entered(entered, env_var);
        if !set && !entered_before {
            r = add_missing(r, env_var, agent, Ghost(pre), Ghost(post), Ghost(en));
        } else {
            proof {
                assert(!is_missing(post.last(), en));
                assert forall|i: int| 0 <= i < r@.len() implies names_view(#[trigger] r@[i].1@)
                    == agents_missing(post, en, r@[i].0@) && agents_missing(post, en, r@[i].0@).len()
                    > 0 by {
                    assert(agents_missing(post, en, r@[i].0@) == agents_missing(pre, en, r@[i].0@));
                }
                assert forall|j: int| 0 <= j < post.len() && is_missing(#[trigger] post[j], en) implies exists|i: int|
                    0 <= i < r@.len() && #[trigger] r@[i].0@ == post[j].0 by {
                    assert(j < pre.len());
                    assert(post[j] == pre[j]);
                }
            }
        }
        k += 1;
    }
    assert(nv.take(needed@.len() as int) =~= nv);
    r
}

/// Whether a key of this name was entered before.
fn is_entered(entered: &Vec<(String, String)>, env_var: &String) -> (r: bool)
    ensures
        r == entered_names(entered@).contains(env_var@),
{
    let mut i: usize = 0;
    while i < entered.len()
        invariant
            i <= entered@.len(),
            forall|j: int| 0 <= j < i ==> entered@[j].0@ != env_var@,
        decreases entered@.len() - i,
    {
        if entered[i].0 == *env_var {
            assert(entered_names(entered@)[i as int] == env_var@);
            return true;
        }
        i += 1;
    }
    proof {
        if entered_names(entered@).contains(env_var@) {
            let j = choose|j: int| 0 <= j < entered_names(entered@).len() && entered_names(entered@)[j] == env_var@;
            assert(entered@[j].0@ == env_var@);
        }
    }
    false
}

/// Adds a missing key of `env_var`, needed by `agent`, to the groups.
fn add_missing(
    r: Vec<(String, Vec<String>)>,
    env_var: &String,
    agent: &String,
    Ghost(pre): Ghost<Seq<(Seq<char>, Seq<char>, bool)>>,
    Ghost(post): Ghost<Seq<(Seq<char>, Seq<char>, bool)>>,
    Ghost(en): Ghost<Seq<Seq<char>>>,
) -> (out: Vec<(String, Vec<String>)>)
    requires
        missing_keys_wf(r@, pre, en),
        post.len() == pre.len() + 1,
        post.drop_last() == pre,
        post.last() == (env_var@, agent@, false),
        !en.contains(env_var@),
    ensures
        missing_keys_wf(out@, post, en),
{
    let ghost n = post.last();
    assert(is_missing(n, en));
    let mut r = r;
    let mut i: usize = 0;
    while i < r.len() && text_less_exec(&r[i].0, env_var)
        invariant
            i <= r@.len(),
            missing_keys_wf(r@, pre, en),
            forall|j: int| 0 <= j < i ==> text_less(#[trigger] r@[j].0@, env_var@),
        decreases r@.len() - i,
    {
        i += 1;
    }
    if i < r.len() && r[i].0 == *env_var {
        // the group of this key: the agent joins it
        let ghost before = r@;
        let (key, mut names) = r.remove(i);
        let ghost old_names = names@;
        names.push(agent.clone());
        assert(names_view(names@) =~= names_view(old_names).push(agent@));
        r.insert(i, (key, names));
        assert(r@ =~= before.update(i as int, r@[i as int]));
        proof {
            assert forall|a: int, b: int| 0 <= a < b < r@.len() implies text_less(
                #[trigger] r@[a].0@,
                #[trigger] r@[b].0@,
            ) by {
                assert(r@[a].0@ == before[a].0@);
                assert(r@[b].0@ == before[b].0@);
            }
            assert forall|j: int| 0 <= j < r@.len() implies names_view(#[trigger] r@[j].1@)
                == agents_missing(post, en, r@[j].0@) && agents_missing(post, en, r@[j].0@).len()
                > 0 by {
                if j != i {
                    assert(r@[j] == before[j]);
                    if before[j].0@ == env_var@ {
                        lemma_text_less_irreflexive(env_var@);
                        if j < i {
                        } else {
                            assert(text_less(before[i as int].0@, before[j].0@));
                        }
                    }
                }
            }
            assert forall|k: int| 0 <= k < post.len() && is_missing(#[trigger] post[k], en) implies exists|j: int|
                0 <= j < r@.len() && #[trigger] r@[j].0@ == post[k].0 by {
                if k < pre.len() {
                    assert(post[k] == pre[k]);
                    let j = choose|j: int| 0 <= j < before.len() && #[trigger] before[j].0@ == pre[k].0;
                    assert(r@[j].0@ == before[j].0@);
                } else {
                    assert(r@[i as int].0@ == post[k].0);
                }
            }
        }
        r
    } else {
        // a new group, in its place in the order
        let ghost before = r@;
        proof {
            if i < r@.len() {
                lemma_text_less_total(r@[i as int].0@, env_var@);
            }
            assert forall|j: int| 0 <= j < before.len() implies before[j].0@ != env_var@ by {
                if j < i {
                    lemma_text_less_irreflexive(env_var@);
                } else if j > i {
                    if before[j].0@ == env_var@ {
                        assert(text_less(before[i as int].0@, before[j].0@));
                        lemma_text_less_transitive(before[i as int].0@, env_var@, before[i as int].0@);
                        lemma_text_less_irreflexive(before[i as int].0@);
                    }
                }
            }
            assert forall|k: int| 0 <= k < pre.len() && is_missing(pre[k], en) implies pre[k].0
                != env_var@ by {
                if is_missing(pre[k], en) && pre[k].0 == env_var@ {
                    let j = choose|j: int| 0 <= j < before.len() && #[trigger] before[j].0@ == pre[k].0;
                }
            }
            lemma_agents_missing_empty(pre, en, env_var@);
        }
        let mut names: Vec<String> = Vec::new();
        names.push(agent.clone());
        assert(names_view(names@) =~= seq![agent@]);
        assert(agents_missing(post, en, env_var@) =~= seq![agent@]);
        let key = env_var.clone();
        r.insert(i, (key, names));
        proof {
            assert forall|a: int, b: int| 0 <= a < b < r@.len() implies text_less(
                #[trigger] r@[a].0@,
                #[trigger] r@[b].0@,
            ) by {
                if a < i && b < i {
                    assert(r@[a] == before[a] && r@[b] == before[b]);
                } else if a < i && b == i {
                    assert(r@[a] == before[a]);
                } else if a < i {
                    assert(r@[a] == before[a] && r@[b] == before[b - 1]);
                    lemma_text_less_total(before[i as int].0@, env_var@);
                    if i + 1 < b {
                        assert(text_less(before[i as int].0@, before[b - 1].0@));
                        lemma_text_less_transitive(before[a].0@, env_var@, before[i as int].0@);
                        lemma_text_less_transitive(before[a].0@, before[i as int].0@, before[b - 1].0@);
                    } else {
                        lemma_text_less_transitive(before[a].0@, env_var@, before[i as int].0@);
                    }
                } else if a == i {
                    assert(r@[b] == before[b - 1]);
                    lemma_text_less_total(before[i as int].0@, env_var@);
                    if b - 1 > i {
                        assert(text_less(before[i as int].0@, before[b - 1].0@));
                        lemma_text_less_transitive(env_var@, before[i as int].0@, before[b - 1].0@);
                    }
                } else {
                    assert(r@[a] == before[a - 1] && r@[b] == before[b - 1]);
                }
            }
            assert forall|j: int| 0 <= j < r@.len() implies names_view(#[trigger] r@[j].1@)
                == agents_missing(post, en, r@[j].0@) && agents_missing(post, en, r@[j].0@).len()
                > 0 by {
                if j != i {
                    let b = if j < i { j } else { j - 1 };
                    assert(r@[j] == before[b]);
                    assert(before[b].0@ != env_var@);
                    assert(names_view(before[b].1@) == agents_missing(pre, en, before[b].0@));
                    assert(agents_missing(post, en, before[b].0@) == agents_missing(pre, en, before[b].0@));
                }
            }
            assert forall|k: int| 0 <= k < post.len() && is_missing(#[trigger] post[k], en) implies exists|j: int|
                0 <= j < r@.len() && #[trigger] r@[j].0@ == post[k].0 by {
                if k < pre.len() {
                    assert(post[k] == pre[k]);
                    let j = choose|j: int| 0 <= j < before.len() && #[trigger] before[j].0@ == pre[k].0;
                    if j < i {
                        assert(r@[j] == before[j]);
                    } else {
                        assert(r@[j + 1] == before[j]);
                    }
                } else {
                    assert(r@[i as int].0@ == post[k].0);
                }
            }
        }
        r
    }
}

/// The popup's state: the missing keys, each with the agents that need it,
/// and what the user typed into each of the (up to four) inputs.
pub struct IcedContext {
    pub missing_api_keys: Vec<(String, Vec<String>)>,
    pub key1: String,
    pub key2: String,
    pub key3: String,
    pub key4: String,
}

/// What the popup reacts to. An input is named by its place, from 0.
#[derive(Clone, Debug)]
pub enum IcedMessage {
    EditKey1(String),
    EditKey2(String),
    EditKey3(String),
    EditKey4(String),
    /// Handled by the view that shows the popup: it stores the keys.
    Enter,
    Focus(usize),
}

impl IcedContext {
    pub fn new(missing_api_keys: Vec<(String, Vec<String>)>) -> (r: IcedContext)
        ensures
            r.missing_api_keys == missing_api_keys,
            r.key1@.len() == 0,
            r.key2@.len() == 0,
            r.key3@.len() == 0,
            r.key4@.len() == 0,
    {
        IcedContext {
            missing_api_keys,
            key1: String::new(),
            key2: String::new(),
            key3: String::new(),
            key4: String::new(),
        }
    }

    /// What was typed into input `i`.
    pub open spec fn key(&self, i: int) -> Seq<char> {
        if i == 0 {
            self.key1@
        } else if i == 1 {
            self.key2@
        } else if i == 2 {
            self.key3@
        } else {
            self.key4@
        }
    }

    /// The input that takes the focus: the first one that is still empty.
    pub fn focus(&self) -> (r: Option<usize>)
        ensures
            match r {
                Some(i) => i < KEY_INPUT_COUNT && self.key(i as int).len() == 0 && forall|j: int|
                    0 <= j < i ==> self.key(j).len() > 0,
                None => forall|j: int| 0 <= j < KEY_INPUT_COUNT ==> self.key(j).len() > 0,
            },
    {
        if self.key1.as_str().is_empty() {
            Some(0)
        } else if self.key2.as_str().is_empty() {
            Some(1)
        } else if self.key3.as_str().is_empty() {
            Some(2)
        } else if self.key4.as_str().is_empty() {
            Some(3)
        } else {
            None
        }
    }

    /// What pressing enter in input `i` sends: `Enter` in the input of the
    /// last missing key, else the focus for the next input.
    pub fn on_submit(&self, i: usize) -> (r: IcedMessage)
        requires
            i < KEY_INPUT_COUNT,
        ensures
            if i + 1 == KEY_INPUT_COUNT || self.missing_api_keys@.len() == i + 1 {
                r is Enter
            } else {
                r matches IcedMessage::Focus(j) && j == i + 1
            },
    {
        if i + 1 == KEY_INPUT_COUNT || self.missing_api_keys.len() == i + 1 {
            IcedMessage::Enter
        } else {
            IcedMessage::Focus(i + 1)
        }
    }

    /// The keys to store when the user presses enter: each shown missing
    /// key's name with what was typed for it, in order.
    pub fn entered_keys(&self) -> (r: Vec<(String, String)>)
        ensures
            r@.len() == if self.missing_api_keys@.len() < KEY_INPUT_COUNT {
                self.missing_api_keys@.len()
            } else {
                KEY_INPUT_COUNT as nat
            },
            forall|i: int|
                0 <= i < r@.len() ==> #[trigger] r@[i].0@ == self.missing_api_keys@[i].0@ && r@[i].1@
                    == self.key(i),
    {
        let mut r: Vec<(String, String)> = Vec::new();
        let mut i: usize = 0;
        while i < self.missing_api_keys.len() && i < KEY_INPUT_COUNT
            invariant
                i <= self.missing_api_keys@.len(),
                i <= KEY_INPUT_COUNT,
                r@.len() == i,
                forall|j: int|
                    0 <= j < i ==> #[trigger] r@[j].0@ == self.missing_api_keys@[j].0@ && r@[j].1@
                        == self.key(j),
            decreases KEY_INPUT_COUNT - i,
        {
            let key = if i == 0 {
                self.key1.clone()
            } else if i == 1 {
                self.key2.clone()
            } else if i == 2 {
                self.key3.clone()
            } else {
                self.key4.clone()
            };
            r.push((self.missing_api_keys[i].0.clone(), key));
            i += 1;
        }
        r
    }
}

/// The agents' part of an input's label: "a-agent, b-agent".
pub open spec fn agent_list(names: Seq<Seq<char>>) -> Seq<char>
    decreases names.len(),
{
    if names.len() == 0 {
        Seq::empty()
    } else if names.len() == 1 {
        names[0] + "-agent"@
    } else {
        agent_list(names.drop_last()) + ", "@ + names.last() + "-agent"@
    }
}

/// The label of the input for a key: its name, then the agents that need
/// it in brackets, where there are any.
pub open spec fn spec_input_label(env_var: Seq<char>, names: Seq<Seq<char>>) -> Seq<char> {
    if names.len() == 0 {
        env_var
    } else {
        env_var + " ("@ + agent_list(names) + ")"@
    }
}

pub fn input_label(env_var: &String, agent_names: &Vec<String>) -> (r: String)
    ensures
        r@ == spec_input_label(env_var@, names_view(agent_names@)),
{
    let mut r = env_var.clone();
    if agent_names.len() == 0 {
        return r;
    }
    let mut list = String::new();
    let mut i: usize = 0;
    while i < agent_names.len()
        invariant
            i <= agent_names@.len(),
            list@ == agent_list(names_view(agent_names@.take(i as int))),
        decreases agent_names@.len() - i,
    {
        proof {
            let t = names_view(agent_names@.take(i + 1));
            assert(t.drop_last() =~= names_view(agent_names@.take(i as int)));
            assert(t.last() == agent_names@[i as int]@);
            reveal_strlit(", ");
            reveal_strlit("-agent");
        }
        if i > 0 {
            list.append(", ");
        }
        list.append(agent_names[i].as_str());
        list.append("-agent");
        proof {
            if i == 0 {
                assert(names_view(agent_names@.take(1))[0] == agent_names@[0]@);
                assert(list@ =~= agent_list(names_view(agent_names@.take(1))));
            } else {
                assert(list@ =~= agent_list(names_view(agent_names@.take(i + 1))));
            }
        }
        i += 1;
    }
    assert(agent_names@.take(agent_names@.len() as int) =~= agent_names@);
    r.append(" (");
    r.append(list.as_str());
    r.append(")");
    r
}

/// Reacts to one message; the result is the input to focus, if any.
pub fn update(context: &mut IcedContext, message: IcedMessage) -> (r: Option<usize>)
    ensures
        match message {
            IcedMessage::EditKey1(k) => r is None && *final(context) == (IcedContext { key1: k, ..*old(context) }),
            IcedMessage::EditKey2(k) => r is None && *final(context) == (IcedContext { key2: k, ..*old(context) }),
            IcedMessage::EditKey3(k) => r is None && *final(context) == (IcedContext { key3: k, ..*old(context) }),
            IcedMessage::EditKey4(k) => r is None && *final(context) == (IcedContext { key4: k, ..*old(context) }),
            IcedMessage::Enter => r is None && *final(context) == *old(context),
            IcedMessage::Focus(i) => r == Some(i) && *final(context) == *old(context),
        },
{
    match message {
        IcedMessage::EditKey1(k) => {
            context.key1 = k;
            None
        },
        IcedMessage::EditKey2(k) => {
            context.key2 = k;
            None
        },
        IcedMessage::EditKey3(k) => {
            context.key3 = k;
            None
        },
        IcedMessage::EditKey4(k) => {
            context.key4 = k;
            None
        },
        IcedMessage::Enter => None,
        IcedMessage::Focus(i) => Some(i),
    }
}

} // verus!
