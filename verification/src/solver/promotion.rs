//! Promotion evaluation: which environments a unit is authorized for, and
//! collisions between promotion policies.
//!
//! `env:dev` is always authorized. Another environment needs a promotion
//! of the unit to it, and is blocked when a promotion gate asks for human
//! approval of the transition; with no gate, a transition promotes
//! automatically.

use vstd::prelude::*;
use crate::common::{UnitId, id_text, id_to_text};
use crate::model::{PromotionGateDef, PromotionMode, PromotionPolicy, PromotionTransition, Unit};
use crate::order::{Ordered, sort_le, sorted_le, lemma_perm_contains, lemma_perm_no_duplicates, lemma_map_perm};
use crate::solver::filter::dev_env_text;
use crate::text::{str_eq, str_le, str_le_spec, lemma_lex_total};
use crate::solver::placement::lemma_str_le_trans;

verus! {

/// Environments in string order.
impl Ordered for String {
    open spec fn le_spec(self, other: Self) -> bool {
        str_le_spec(self@, other@)
    }

    proof fn lemma_le_total(a: Self, b: Self) {
        lemma_lex_total(vstd::utf8::encode_utf8(a@), vstd::utf8::encode_utf8(b@));
    }

    proof fn lemma_le_trans(a: Self, b: Self, c: Self) {
        lemma_str_le_trans(a@, b@, c@);
    }

    fn le(&self, other: &Self) -> (r: bool) {
        str_le(self.as_str(), other.as_str())
    }
}

/// Blocked environments in environment order.
impl Ordered for (String, String) {
    open spec fn le_spec(self, other: Self) -> bool {
        str_le_spec(self.0@, other.0@)
    }

    proof fn lemma_le_total(a: Self, b: Self) {
        lemma_lex_total(vstd::utf8::encode_utf8(a.0@), vstd::utf8::encode_utf8(b.0@));
    }

    proof fn lemma_le_trans(a: Self, b: Self, c: Self) {
        lemma_str_le_trans(a.0@, b.0@, c.0@);
    }

    fn le(&self, other: &Self) -> (r: bool) {
        str_le(self.0.as_str(), other.0.as_str())
    }
}

/// The mode of the first transition to `env` in a list.
pub open spec fn transition_mode(ts: Seq<PromotionTransition>, env: Seq<char>) -> Option<PromotionMode>
    decreases ts.len(),
{
    if ts.len() == 0 {
        None
    } else {
        match transition_mode(ts.drop_last(), env) {
            Some(m) => Some(m),
            None => if ts.last().to_env@ == env { Some(ts.last().mode) } else { None },
        }
    }
}

/// The mode of the first transition to `env` over all gates, in order.
pub open spec fn gate_mode_spec(gates: Seq<PromotionGateDef>, env: Seq<char>) -> Option<PromotionMode>
    decreases gates.len(),
{
    if gates.len() == 0 {
        None
    } else {
        match gate_mode_spec(gates.drop_last(), env) {
            Some(m) => Some(m),
            None => transition_mode(gates.last().transitions@, env),
        }
    }
}

/// `"human approval required for "` followed by the environment.
pub open spec fn approval_reason(env: Seq<char>) -> Seq<char> {
    seq!['h', 'u', 'm', 'a', 'n', ' ', 'a', 'p', 'p', 'r', 'o', 'v', 'a', 'l', ' ', 'r', 'e', 'q', 'u', 'i', 'r',
        'e', 'd', ' ', 'f', 'o', 'r', ' '] + env
}

/// Promotion `p` is for `unit` into an environment other than `env:dev`.
pub open spec fn promotes_elsewhere(p: PromotionPolicy, unit: Unit) -> bool {
    p.unit_ref == unit.header_spec().id && p.target_environment@ != dev_env_text()
}

/// The environment is authorized: `env:dev`, or a promotion of the unit to
/// it whose gate does not ask for human approval.
pub open spec fn authorized_spec(v: Seq<char>, unit: Unit, promotions: Seq<PromotionPolicy>, gates: Seq<PromotionGateDef>) -> bool {
    v == dev_env_text() || exists|i: int| 0 <= i < promotions.len() && promotes_elsewhere(#[trigger] promotions[i], unit)
        && promotions[i].target_environment@ == v
        && gate_mode_spec(gates, v) != Some(PromotionMode::HumanApproval)
}

/// The blocked environments among the first `n` promotions, in order, with
/// their reasons.
pub open spec fn blocked_prefix(unit: Unit, promotions: Seq<PromotionPolicy>, gates: Seq<PromotionGateDef>, n: int) -> Seq<(Seq<char>, Seq<char>)>
    decreases n,
{
    if n <= 0 {
        Seq::empty()
    } else {
        let rest = blocked_prefix(unit, promotions, gates, n - 1);
        let p = promotions[n - 1];
        if promotes_elsewhere(p, unit) && gate_mode_spec(gates, p.target_environment@) == Some(PromotionMode::HumanApproval) {
            rest.push((p.target_environment@, approval_reason(p.target_environment@)))
        } else {
            rest
        }
    }
}

/// Result of promotion evaluation.
#[derive(Clone, Debug, PartialEq, Eq)]
pub struct PromotionResult {
    /// Environments the unit is authorized for.
    pub authorized_envs: Vec<String>,
    /// Blocked environments, each with the reason.
    pub blocked_envs: Vec<(String, String)>,
}

/// A collision between two promotion policies.
#[derive(Clone, Debug, PartialEq, Eq, Hash)]
pub struct PromotionCollision {
    /// The first policy.
    pub policy_a: UnitId,
    /// The second policy.
    pub policy_b: UnitId,
    /// The environment.
    pub environment: String,
    /// What differs.
    pub detail: String,
}

/// Promotions `i < j` collide: same unit and environment, different
/// versions.
pub open spec fn collides(p: Seq<PromotionPolicy>, i: int, j: int) -> bool {
    &&& 0 <= i < j < p.len()
    &&& p[i].unit_ref == p[j].unit_ref
    &&& p[i].target_environment@ == p[j].target_environment@
    &&& p[i].version@ != p[j].version@
}

/// (`i`, `j`) is the first colliding pair in lexicographic order.
pub open spec fn first_collision(p: Seq<PromotionPolicy>, i: int, j: int) -> bool {
    &&& collides(p, i, j)
    &&& forall|a: int, b: int| #![trigger collides(p, a, b)] (a < i || (a == i && b < j)) ==> !collides(p, a, b)
}

/// The detail text of a collision between promotions `a` and `b`.
pub open spec fn collision_detail(a: PromotionPolicy, b: PromotionPolicy) -> Seq<char> {
    seq!['c', 'o', 'n', 'f', 'l', 'i', 'c', 't', 'i', 'n', 'g', ' ', 'p', 'r', 'o', 'm', 'o', 't', 'i', 'o', 'n', ' ',
        'f', 'o', 'r', ' ', 'u', 'n', 'i', 't', ' ', 'U', 'n', 'i', 't', 'I', 'd', '('] + id_text(a.unit_ref.0)
        + seq![')', ' ', 'i', 'n', ' '] + a.target_environment@ + seq![':', ' ', 'v', 'e', 'r', 's', 'i', 'o', 'n', ' ',
        '\''] + a.version@ + seq!['\'', ' ', 'v', 's', ' ', '\''] + b.version@ + seq!['\'']
}

/// Default, stateless promotion evaluator.
#[derive(Clone, Copy, Debug, Default, PartialEq, Eq)]
pub struct DefaultPromotionEvaluator;

fn copy_string(s: &String) -> (r: String)
    ensures r@ == s@,
{
    s.clone()
}

impl DefaultPromotionEvaluator {
    /// Creates an evaluator.
    pub fn new() -> (r: Self)
        ensures r == DefaultPromotionEvaluator,
    {
        DefaultPromotionEvaluator
    }

    /// The mode of the first transition to `target_env` over all gates.
    pub fn gate_mode(target_env: &String, gates: &Vec<PromotionGateDef>) -> (r: Option<PromotionMode>)
        ensures r == gate_mode_spec(gates@, target_env@),
    {
        let mut g: usize = 0;
        while g < gates.len()
            invariant
                g <= gates@.len(),
                gate_mode_spec(gates@.subrange(0, g as int), target_env@) is None,
            decreases gates@.len() - g,
        {
            let ts = &gates[g].transitions;
            let mut t: usize = 0;
            while t < ts.len()
                invariant
                    g < gates@.len(),
                    ts@ == gates@[g as int].transitions@,
                    t <= ts@.len(),
                    transition_mode(ts@.subrange(0, t as int), target_env@) is None,
                    gate_mode_spec(gates@.subrange(0, g as int), target_env@) is None,
                decreases ts@.len() - t,
            {
                proof {
                    assert(ts@.subrange(0, t + 1).drop_last() =~= ts@.subrange(0, t as int));
                }
                if str_eq(ts[t].to_env.as_str(), target_env.as_str()) {
                    proof {
                        assert(gates@.subrange(0, g + 1).drop_last() =~= gates@.subrange(0, g as int));
                        lemma_transition_mode_extend(ts@, t as int + 1, target_env@);
                        assert(gates@.subrange(0, g + 1).last() == gates@[g as int]);
                        assert(gate_mode_spec(gates@.subrange(0, g + 1), target_env@) == Some(ts@[t as int].mode));
                        lemma_gate_mode_extend(gates@, g as int + 1, target_env@);
                    }
                    return Some(ts[t].mode);
                }
                t = t + 1;
            }
            proof {
                assert(ts@.subrange(0, ts@.len() as int) =~= ts@);
                assert(gates@.subrange(0, g + 1).drop_last() =~= gates@.subrange(0, g as int));
            }
            g = g + 1;
        }
        assert(gates@.subrange(0, gates@.len() as int) =~= gates@);
        None
    }
}

/// A prefix of the gates that already finds a transition decides them all.
proof fn lemma_gate_mode_extend(gates: Seq<PromotionGateDef>, k: int, env: Seq<char>)
    requires
        0 <= k <= gates.len(),
        gate_mode_spec(gates.subrange(0, k), env) is Some,
    ensures
        gate_mode_spec(gates, env) == gate_mode_spec(gates.subrange(0, k), env),
    decreases gates.len() - k,
{
    if k < gates.len() {
        assert(gates.subrange(0, k + 1).drop_last() =~= gates.subrange(0, k));
        lemma_gate_mode_extend(gates, k + 1, env);
    } else {
        assert(gates.subrange(0, k) =~= gates);
    }
}

/// A prefix that already finds a transition decides the whole list.
proof fn lemma_transition_mode_extend(ts: Seq<PromotionTransition>, k: int, env: Seq<char>)
    requires
        0 <= k <= ts.len(),
        transition_mode(ts.subrange(0, k), env) is Some,
    ensures
        transition_mode(ts, env) == transition_mode(ts.subrange(0, k), env),
    decreases ts.len() - k,
{
    if k < ts.len() {
        assert(ts.subrange(0, k + 1).drop_last() =~= ts.subrange(0, k));
        lemma_transition_mode_extend(ts, k + 1, env);
    } else {
        assert(ts.subrange(0, k) =~= ts);
    }
}

/// Whether some string of `v` has the view of `s`.
fn contains_str(v: &Vec<String>, s: &String) -> (r: bool)
    ensures r == exists|k: int| 0 <= k < v@.len() && (#[trigger] v@[k])@ == s@,
{
    let mut i: usize = 0;
    while i < v.len()
        invariant
            i <= v@.len(),
            forall|k: int| 0 <= k < i ==> (#[trigger] v@[k])@ != s@,
        decreases v@.len() - i,
    {
        if str_eq(v[i].as_str(), s.as_str()) {
            return true;
        }
        i = i + 1;
    }
    false
}

/// The view of a pair of strings.
pub open spec fn pair_view(p: (String, String)) -> (Seq<char>, Seq<char>) {
    (p.0@, p.1@)
}

/// The view of a string.
pub open spec fn string_view(s: String) -> Seq<char> {
    s@
}

impl DefaultPromotionEvaluator {
    /// The environments the unit is authorized for (`env:dev` and each
    /// promoted environment whose gate does not ask for human approval),
    /// each once and in order, and the blocked environments with their
    /// reasons, in order.
    pub fn evaluate(&self, unit: &Unit, promotions: &Vec<PromotionPolicy>, gates: &Vec<PromotionGateDef>) -> (r: PromotionResult)
        ensures
            sorted_le(r.authorized_envs@),
            r.authorized_envs@.map_values(|s: String| string_view(s)).no_duplicates(),
            forall|v: Seq<char>| #[trigger] contains_str_spec(r.authorized_envs@, v)
                <==> authorized_spec(v, *unit, promotions@, gates@),
            sorted_le(r.blocked_envs@),
            r.blocked_envs@.map_values(|p: (String, String)| pair_view(p)).to_multiset()
                == blocked_prefix(*unit, promotions@, gates@, promotions@.len() as int).to_multiset(),
    {
        proof {
            reveal_strlit("env:dev");
            reveal_strlit("human approval required for ");
        }
        let mut auth: Vec<String> = Vec::new();
        auth.push("env:dev".to_string());
        let mut blocked: Vec<(String, String)> = Vec::new();
        let id = unit.id();
        proof {
            assert(auth@.len() == 1 && auth@[0]@ == dev_env_text());
            assert(auth@.map_values(|s: String| string_view(s)).len() == 1);
            assert forall|v: Seq<char>| #[trigger] contains_str_spec(auth@, v) <==> v == dev_env_text() by {
                if contains_str_spec(auth@, v) {
                    let k = choose|k: int| 0 <= k < auth@.len() && (#[trigger] auth@[k])@ == v;
                    assert(k == 0);
                }
                if v == dev_env_text() {
                    assert(auth@[0]@ == v);
                }
            }
        }
        let mut i: usize = 0;
        while i < promotions.len()
            invariant
                i <= promotions@.len(),
                id == unit.header_spec().id,
                "env:dev"@ == dev_env_text(),
                "human approval required for "@ + seq![] == approval_reason(Seq::empty()),
                auth@.map_values(|s: String| string_view(s)).no_duplicates(),
                forall|v: Seq<char>| #[trigger] contains_str_spec(auth@, v)
                    <==> (v == dev_env_text() || exists|q: int| 0 <= q < i && promotes_elsewhere(#[trigger] promotions@[q], *unit)
                        && promotions@[q].target_environment@ == v
                        && gate_mode_spec(gates@, v) != Some(PromotionMode::HumanApproval)),
                blocked@.map_values(|p: (String, String)| pair_view(p)) == blocked_prefix(*unit, promotions@, gates@, i as int),
            decreases promotions@.len() - i,
        {
            let promo = &promotions[i];
            let env = &promo.target_environment;
            let ghost auth_before = auth@;
            let ghost blocked_before = blocked@;
            let ghost newq = promotes_elsewhere(promotions@[i as int], *unit)
                && gate_mode_spec(gates@, env@) != Some(PromotionMode::HumanApproval);
            if promo.unit_ref.0 == id.0 && !str_eq(env.as_str(), "env:dev") {
                match Self::gate_mode(env, gates) {
                    Some(PromotionMode::HumanApproval) => {
                        let mut reason = String::new();
                        reason.append("human approval required for ");
                        reason.append(env.as_str());
                        blocked.push((copy_string(env), reason));
                        proof {
                            assert(blocked@.map_values(|p: (String, String)| pair_view(p))
                                =~= blocked_before.map_values(|p: (String, String)| pair_view(p)).push(pair_view(blocked@.last())));
                            assert(reason@ =~= approval_reason(env@));
                        }
                    },
                    _ => {
                        if !contains_str(&auth, env) {
                            auth.push(copy_string(env));
                            proof {
                                let m = auth@.map_values(|s: String| string_view(s));
                                let mb = auth_before.map_values(|s: String| string_view(s));
                                assert(m =~= mb.push(env@));
                                assert(!mb.contains(env@)) by {
                                    if mb.contains(env@) {
                                        let k = choose|k: int| 0 <= k < mb.len() && mb[k] == env@;
                                        assert(auth_before[k]@ == env@);
                                    }
                                }
                                assert forall|a: int, b: int| 0 <= a < m.len() && 0 <= b < m.len() && a != b implies m[a] != m[b] by {
                                    if a < mb.len() && b < mb.len() {
                                        assert(m[a] == mb[a] && m[b] == mb[b]);
                                    } else if a < mb.len() {
                                        assert(mb.contains(mb[a]));
                                    } else {
                                        assert(mb.contains(mb[b]));
                                    }
                                }
                            }
                        }
                    },
                }
            }
            proof {
                assert forall|v: Seq<char>| #[trigger] contains_str_spec(auth@, v)
                    <==> contains_str_spec(auth_before, v) || (newq && v == env@) by {
                    if contains_str_spec(auth@, v) {
                        let k = choose|k: int| 0 <= k < auth@.len() && (#[trigger] auth@[k])@ == v;
                        if k < auth_before.len() {
                            assert(auth_before[k] == auth@[k]);
                        }
                    }
                    if contains_str_spec(auth_before, v) {
                        let k = choose|k: int| 0 <= k < auth_before.len() && (#[trigger] auth_before[k])@ == v;
                        assert(auth@[k] == auth_before[k]);
                    }
                    if newq && v == env@ && !contains_str_spec(auth_before, v) {
                        assert(auth@.last()@ == v);
                    }
                }
                assert forall|v: Seq<char>| #[trigger] contains_str_spec(auth@, v)
                    <==> (v == dev_env_text() || exists|q: int| 0 <= q < i + 1 && promotes_elsewhere(#[trigger] promotions@[q], *unit)
                        && promotions@[q].target_environment@ == v
                        && gate_mode_spec(gates@, v) != Some(PromotionMode::HumanApproval)) by {
                    assert(contains_str_spec(auth_before, v) <==> (v == dev_env_text() || exists|q: int| 0 <= q < i
                        && promotes_elsewhere(#[trigger] promotions@[q], *unit)
                        && promotions@[q].target_environment@ == v
                        && gate_mode_spec(gates@, v) != Some(PromotionMode::HumanApproval)));
                    if exists|q: int| 0 <= q < i + 1 && promotes_elsewhere(#[trigger] promotions@[q], *unit)
                        && promotions@[q].target_environment@ == v
                        && gate_mode_spec(gates@, v) != Some(PromotionMode::HumanApproval) {
                        let q = choose|q: int| 0 <= q < i + 1 && promotes_elsewhere(#[trigger] promotions@[q], *unit)
                            && promotions@[q].target_environment@ == v
                            && gate_mode_spec(gates@, v) != Some(PromotionMode::HumanApproval);
                        if q == i {
                            assert(newq && v == env@);
                        }
                    }
                }
            }
            i = i + 1;
        }
        let ghost auth_unsorted = auth@;
        let ghost blocked_unsorted = blocked@;
        let authorized_envs = sort_le(auth);
        let blocked_envs = sort_le(blocked);
        proof {
            lemma_map_perm(auth_unsorted, authorized_envs@, |s: String| string_view(s));
            lemma_perm_no_duplicates(auth_unsorted.map_values(|s: String| string_view(s)),
                authorized_envs@.map_values(|s: String| string_view(s)));
            lemma_perm_contains(auth_unsorted, authorized_envs@);
            lemma_map_perm(blocked_unsorted, blocked_envs@, |p: (String, String)| pair_view(p));
            assert forall|v: Seq<char>| #[trigger] contains_str_spec(authorized_envs@, v)
                <==> authorized_spec(v, *unit, promotions@, gates@) by {
                if contains_str_spec(authorized_envs@, v) {
                    let k = choose|k: int| 0 <= k < authorized_envs@.len() && (#[trigger] authorized_envs@[k])@ == v;
                    assert(authorized_envs@.contains(authorized_envs@[k]));
                    let j = choose|j: int| 0 <= j < auth_unsorted.len() && auth_unsorted[j] == authorized_envs@[k];
                    assert(auth_unsorted[j]@ == v);
                    assert(contains_str_spec(auth_unsorted, v));
                }
                if authorized_spec(v, *unit, promotions@, gates@) {
                    assert(contains_str_spec(auth_unsorted, v));
                    let j = choose|j: int| 0 <= j < auth_unsorted.len() && (#[trigger] auth_unsorted[j])@ == v;
                    assert(auth_unsorted.contains(auth_unsorted[j]));
                    let k = choose|k: int| 0 <= k < authorized_envs@.len() && authorized_envs@[k] == auth_unsorted[j];
                    assert(authorized_envs@[k]@ == v);
                }
            }
        }
        PromotionResult { authorized_envs, blocked_envs }
    }
}

/// Some string of `v` has view `s`.
pub open spec fn contains_str_spec(v: Seq<String>, s: Seq<char>) -> bool {
    exists|k: int| 0 <= k < v.len() && (#[trigger] v[k])@ == s
}

impl DefaultPromotionEvaluator {
    /// The first pair of promotions, in index order, for the same unit and
    /// environment with different versions; none when there is no such
    /// pair (equal versions are the same decision).
    pub fn detect_promotion_collision(&self, promotions: &Vec<PromotionPolicy>) -> (r: Option<PromotionCollision>)
        ensures
            match r {
                None => forall|i: int, j: int| !collides(promotions@, i, j),
                Some(c) => exists|i: int, j: int| first_collision(promotions@, i, j)
                    && c.policy_a == promotions@[i].header.id && c.policy_b == promotions@[j].header.id
                    && c.environment@ == promotions@[i].target_environment@
                    && c.detail@ == collision_detail(promotions@[i], promotions@[j]),
            },
    {
        let mut i: usize = 0;
        while i < promotions.len()
            invariant
                i <= promotions@.len(),
                forall|a: int, b: int| #![trigger collides(promotions@, a, b)] a < i ==> !collides(promotions@, a, b),
            decreases promotions@.len() - i,
        {
            let mut j: usize = i + 1;
            while j < promotions.len()
                invariant
                    i < promotions@.len(),
                    i + 1 <= j <= promotions@.len(),
                    forall|a: int, b: int| #![trigger collides(promotions@, a, b)] a < i ==> !collides(promotions@, a, b),
                    forall|b: int| #![trigger collides(promotions@, i as int, b)] b < j ==> !collides(promotions@, i as int, b),
                decreases promotions@.len() - j,
            {
                let a = &promotions[i];
                let b = &promotions[j];
                if a.unit_ref.0 == b.unit_ref.0 && str_eq(a.target_environment.as_str(), b.target_environment.as_str())
                    && !str_eq(a.version.as_str(), b.version.as_str()) {
                    let mut detail = String::new();
                    proof {
                        reveal_strlit("conflicting promotion for unit UnitId(");
                        reveal_strlit(") in ");
                        reveal_strlit(": version '");
                        reveal_strlit("' vs '");
                        reveal_strlit("'");
                    }
                    detail.append("conflicting promotion for unit UnitId(");
                    let idt = id_to_text(a.unit_ref.0);
                    detail.append(idt.as_str());
                    detail.append(") in ");
                    detail.append(a.target_environment.as_str());
                    detail.append(": version '");
                    detail.append(a.version.as_str());
                    detail.append("' vs '");
                    detail.append(b.version.as_str());
                    detail.append("'");
                    proof {
                        assert(detail@ =~= collision_detail(promotions@[i as int], promotions@[j as int]));
                        assert(first_collision(promotions@, i as int, j as int));
                        assert(a.header.id == promotions@[i as int].header.id);
                        assert(b.header.id == promotions@[j as int].header.id);
                    }
                    return Some(PromotionCollision {
                        policy_a: a.header.id,
                        policy_b: b.header.id,
                        environment: copy_string(&a.target_environment),
                        detail,
                    });
                }
                j = j + 1;
            }
            i = i + 1;
        }
        None
    }
}

} // verus!
