//! Author scope: an author may create units only within the unit types and
//! trust domains of a role assignment; for state-producing unit types no two
//! distinct authors may hold the same scope.

use vstd::prelude::*;
use crate::common::{AuthorId, TrustDomainId, id_text, id_to_text};
use crate::model::{UnitHeader, UnitKind};
use crate::security::error::SecurityError;
use crate::text::joined;

verus! {

/// A unit type as named in a scope.
#[derive(Clone, Copy, Debug, PartialEq, Eq, Structural, Hash)]
pub enum UnitTypeScope {
    /// Workload units.
    Workload,
    /// Data units.
    Data,
    /// Policy units.
    Policy,
    /// Governance units.
    Governance,
}

/// The scope of a unit kind.
pub open spec fn scope_of(k: UnitKind) -> UnitTypeScope {
    match k {
        UnitKind::Workload => UnitTypeScope::Workload,
        UnitKind::Data => UnitTypeScope::Data,
        UnitKind::Policy => UnitTypeScope::Policy,
        UnitKind::Governance => UnitTypeScope::Governance,
    }
}

/// The scope of a unit kind.
pub fn scope_of_kind(k: UnitKind) -> (r: UnitTypeScope)
    ensures r == scope_of(k),
{
    match k {
        UnitKind::Workload => UnitTypeScope::Workload,
        UnitKind::Data => UnitTypeScope::Data,
        UnitKind::Policy => UnitTypeScope::Policy,
        UnitKind::Governance => UnitTypeScope::Governance,
    }
}

/// A role assignment: what an author may create, and where.
#[derive(Clone, Debug)]
pub struct RoleAssignment {
    /// The assignment unit's header.
    pub header: UnitHeader,
    /// The author the role is assigned to.
    pub assignee: AuthorId,
    /// Unit types the author may create.
    pub unit_type_scope: Vec<UnitTypeScope>,
    /// Trust domains the author may create in.
    pub trust_domain_scope: Vec<TrustDomainId>,
}

/// The display name of a unit kind.
pub open spec fn kind_name(k: UnitKind) -> Seq<char> {
    match k {
        UnitKind::Workload => seq!['w', 'o', 'r', 'k', 'l', 'o', 'a', 'd'],
        UnitKind::Data => seq!['d', 'a', 't', 'a'],
        UnitKind::Policy => seq!['p', 'o', 'l', 'i', 'c', 'y'],
        UnitKind::Governance => seq!['g', 'o', 'v', 'e', 'r', 'n', 'a', 'n', 'c', 'e'],
    }
}

fn push_kind_name(s: &mut String, k: UnitKind)
    ensures final(s)@ == old(s)@ + kind_name(k),
{
    proof {
        reveal_strlit("workload");
        reveal_strlit("data");
        reveal_strlit("policy");
        reveal_strlit("governance");
    }
    match k {
        UnitKind::Workload => s.append("workload"),
        UnitKind::Data => s.append("data"),
        UnitKind::Policy => s.append("policy"),
        UnitKind::Governance => s.append("governance"),
    }
}

/// Assignment `a` lets `author` create units of kind `k` in `domain`.
pub open spec fn grants(a: RoleAssignment, author: AuthorId, k: UnitKind, domain: TrustDomainId) -> bool {
    a.assignee == author && a.unit_type_scope@.contains(scope_of(k)) && a.trust_domain_scope@.contains(domain)
}

/// Why an author lacks scope.
pub open spec fn scope_reason(k: UnitKind, domain: TrustDomainId) -> Seq<char> {
    seq!['a', 'u', 't', 'h', 'o', 'r', ' ', 'd', 'o', 'e', 's', ' ', 'n', 'o', 't', ' ', 'h', 'a', 'v', 'e', ' ']
        + kind_name(k) + seq![' ', 's', 'c', 'o', 'p', 'e', ' ', 'i', 'n', ' ', 't', 'r', 'u', 's', 't', ' ', 'd', 'o',
        'm', 'a', 'i', 'n', ' ', 'T', 'r', 'u', 's', 't', 'D', 'o', 'm', 'a', 'i', 'n', 'I', 'd', '('] + id_text(domain.0)
        + seq![')']
}

/// The two lists hold the same set.
pub open spec fn same_set<T>(a: Seq<T>, b: Seq<T>) -> bool {
    forall|x: T| a.contains(x) <==> b.contains(x)
}

/// Assignments `i` and `j` are for the target scope and have the same
/// scope tuple.
pub open spec fn same_group(s: Seq<RoleAssignment>, t: UnitTypeScope, i: int, j: int) -> bool {
    &&& 0 <= i < s.len() && 0 <= j < s.len()
    &&& s[i].unit_type_scope@.contains(t) && s[j].unit_type_scope@.contains(t)
    &&& same_set(s[i].unit_type_scope@, s[j].unit_type_scope@)
    &&& same_set(s[i].trust_domain_scope@, s[j].trust_domain_scope@)
}

/// Assignment `f` opens a group: it is for the target scope and no earlier
/// assignment has its scope tuple.
pub open spec fn group_head(s: Seq<RoleAssignment>, t: UnitTypeScope, f: int) -> bool {
    &&& 0 <= f < s.len()
    &&& s[f].unit_type_scope@.contains(t)
    &&& forall|j: int| 0 <= j < f ==> !#[trigger] same_group(s, t, j, f)
}

/// The group opened by `f` has two distinct authors.
pub open spec fn shared_group(s: Seq<RoleAssignment>, t: UnitTypeScope, f: int) -> bool {
    group_head(s, t, f) && exists|j: int| #[trigger] same_group(s, t, f, j) && s[j].assignee != s[f].assignee
}

/// `f` opens the first group with two distinct authors.
pub open spec fn first_shared_group(s: Seq<RoleAssignment>, t: UnitTypeScope, f: int) -> bool {
    shared_group(s, t, f) && forall|g: int| 0 <= g < f ==> !#[trigger] shared_group(s, t, g)
}

/// `a` is the smallest author of the group opened by `f`.
pub open spec fn least_author(s: Seq<RoleAssignment>, t: UnitTypeScope, f: int, a: AuthorId) -> bool {
    &&& exists|j: int| #[trigger] same_group(s, t, f, j) && s[j].assignee == a
    &&& forall|j: int| #[trigger] same_group(s, t, f, j) ==> a.0 <= s[j].assignee.0
}

/// The `Debug` name of a unit type scope.
pub open spec fn type_scope_name(t: UnitTypeScope) -> Seq<char> {
    match t {
        UnitTypeScope::Workload => "Workload"@,
        UnitTypeScope::Data => "Data"@,
        UnitTypeScope::Policy => "Policy"@,
        UnitTypeScope::Governance => "Governance"@,
    }
}

/// The `Debug` text of a trust domain identifier.
pub open spec fn domain_debug(d: TrustDomainId) -> Seq<char> {
    "TrustDomainId("@ + id_text(d.0) + ")"@
}

/// The elements of `s` in order of first appearance, each once.
pub open spec fn firsts<A>(s: Seq<A>) -> Seq<A>
    decreases s.len(),
{
    if s.len() == 0 {
        Seq::empty()
    } else {
        let r = firsts(s.drop_last());
        if r.contains(s.last()) { r } else { r.push(s.last()) }
    }
}

/// The comma-separated items between braces, as `Debug` renders a set.
pub open spec fn set_debug(items: Seq<Seq<char>>) -> Seq<char> {
    "{"@ + joined(items) + "}"@
}

/// The scope tuple of an assignment as a reason shows it: its unit types
/// and trust domains as sets, each element once, in order of appearance.
pub open spec fn scope_tuple_text(a: RoleAssignment) -> Seq<char> {
    "(unit_type_scope="@ + set_debug(firsts(a.unit_type_scope@).map_values(|t: UnitTypeScope| type_scope_name(t)))
        + ", trust_domain_scope="@ + set_debug(firsts(a.trust_domain_scope@).map_values(|d: TrustDomainId| domain_debug(d)))
        + ")"@
}

/// Why two authors may not share the scope tuple of assignment `a`.
pub open spec fn uniqueness_reason(k: UnitKind, a: RoleAssignment) -> Seq<char> {
    "two or more distinct authors have identical scope tuple "@ + scope_tuple_text(a) + " for state-producing unit type "@
        + kind_name(k) + " (INV-S8)"@
}

fn push_type_scope_name(s: &mut String, t: UnitTypeScope)
    ensures final(s)@ == old(s)@ + type_scope_name(t),
{
    proof {
        reveal_strlit("Workload");
        reveal_strlit("Data");
        reveal_strlit("Policy");
        reveal_strlit("Governance");
    }
    match t {
        UnitTypeScope::Workload => s.append("Workload"),
        UnitTypeScope::Data => s.append("Data"),
        UnitTypeScope::Policy => s.append("Policy"),
        UnitTypeScope::Governance => s.append("Governance"),
    }
}

fn push_domain_debug(s: &mut String, d: TrustDomainId)
    ensures final(s)@ == old(s)@ + domain_debug(d),
{
    proof {
        reveal_strlit("TrustDomainId(");
        reveal_strlit(")");
    }
    s.append("TrustDomainId(");
    let text = id_to_text(d.0);
    s.append(text.as_str());
    s.append(")");
}

proof fn lemma_firsts_step<A>(v: Seq<A>, i: int)
    requires
        0 <= i < v.len(),
    ensures
        firsts(v.subrange(0, i + 1)) == (if firsts(v.subrange(0, i)).contains(v[i]) {
            firsts(v.subrange(0, i))
        } else {
            firsts(v.subrange(0, i)).push(v[i])
        }),
{
    assert(v.subrange(0, i + 1).drop_last() =~= v.subrange(0, i));
}

/// The unit types of a scope, each once, in order of appearance.
fn firsts_types(v: &Vec<UnitTypeScope>) -> (r: Vec<UnitTypeScope>)
    ensures r@ == firsts(v@),
{
    let mut out: Vec<UnitTypeScope> = Vec::new();
    let mut i: usize = 0;
    assert(v@.subrange(0, 0) =~= Seq::<UnitTypeScope>::empty());
    while i < v.len()
        invariant
            i <= v@.len(),
            out@ == firsts(v@.subrange(0, i as int)),
        decreases v@.len() - i,
    {
        let x = v[i];
        let mut seen = false;
        let mut j: usize = 0;
        while j < out.len()
            invariant
                j <= out@.len(),
                seen <==> exists|q: int| 0 <= q < j && out@[q] == x,
            decreases out@.len() - j,
        {
            if out[j] == x {
                seen = true;
            }
            j = j + 1;
        }
        proof {
            lemma_firsts_step(v@, i as int);
            if seen {
                let q = choose|q: int| 0 <= q < out@.len() && out@[q] == x;
                assert(out@.contains(x));
            } else {
                assert(!out@.contains(x));
            }
        }
        if !seen {
            out.push(x);
        }
        i = i + 1;
    }
    assert(v@.subrange(0, v@.len() as int) =~= v@);
    out
}

/// The trust domains of a scope, each once, in order of appearance.
fn firsts_domains(v: &Vec<TrustDomainId>) -> (r: Vec<TrustDomainId>)
    ensures r@ == firsts(v@),
{
    let mut out: Vec<TrustDomainId> = Vec::new();
    let mut i: usize = 0;
    assert(v@.subrange(0, 0) =~= Seq::<TrustDomainId>::empty());
    while i < v.len()
        invariant
            i <= v@.len(),
            out@ == firsts(v@.subrange(0, i as int)),
        decreases v@.len() - i,
    {
        let x = v[i];
        let mut seen = false;
        let mut j: usize = 0;
        while j < out.len()
            invariant
                j <= out@.len(),
                seen <==> exists|q: int| 0 <= q < j && out@[q] == x,
            decreases out@.len() - j,
        {
            if out[j].0 == x.0 {
                seen = true;
            }
            j = j + 1;
        }
        proof {
            lemma_firsts_step(v@, i as int);
            if seen {
                let q = choose|q: int| 0 <= q < out@.len() && out@[q] == x;
                assert(out@.contains(x));
            } else {
                assert(!out@.contains(x));
            }
        }
        if !seen {
            out.push(x);
        }
        i = i + 1;
    }
    assert(v@.subrange(0, v@.len() as int) =~= v@);
    out
}

proof fn lemma_joined_push(items: Seq<Seq<char>>, x: Seq<char>)
    ensures
        joined(items.push(x)) == (if items.len() == 0 { x } else { joined(items) + ", "@ + x }),
{
    assert(items.push(x).drop_last() =~= items);
}

/// Appends the unit types as a set.
fn push_type_set(s: &mut String, items: &Vec<UnitTypeScope>)
    ensures final(s)@ == old(s)@ + set_debug(items@.map_values(|t: UnitTypeScope| type_scope_name(t))),
{
    proof {
        reveal_strlit("{");
        reveal_strlit("}");
        reveal_strlit(", ");
    }
    s.append("{");
    let ghost start = s@;
    let mut i: usize = 0;
    assert(items@.subrange(0, 0).map_values(|t: UnitTypeScope| type_scope_name(t)) =~= Seq::<Seq<char>>::empty());
    while i < items.len()
        invariant
            i <= items@.len(),
            s@ == start + joined(items@.subrange(0, i as int).map_values(|t: UnitTypeScope| type_scope_name(t))),
        decreases items@.len() - i,
    {
        let ghost pre = items@.subrange(0, i as int).map_values(|t: UnitTypeScope| type_scope_name(t));
        if i > 0 {
            s.append(", ");
        }
        push_type_scope_name(s, items[i]);
        proof {
            assert(items@.subrange(0, i + 1).map_values(|t: UnitTypeScope| type_scope_name(t))
                =~= pre.push(type_scope_name(items@[i as int])));
            lemma_joined_push(pre, type_scope_name(items@[i as int]));
        }
        i = i + 1;
    }
    assert(items@.subrange(0, items@.len() as int) =~= items@);
    s.append("}");
}

/// Appends the trust domains as a set.
fn push_domain_set(s: &mut String, items: &Vec<TrustDomainId>)
    ensures final(s)@ == old(s)@ + set_debug(items@.map_values(|d: TrustDomainId| domain_debug(d))),
{
    proof {
        reveal_strlit("{");
        reveal_strlit("}");
        reveal_strlit(", ");
    }
    s.append("{");
    let ghost start = s@;
    let mut i: usize = 0;
    assert(items@.subrange(0, 0).map_values(|d: TrustDomainId| domain_debug(d)) =~= Seq::<Seq<char>>::empty());
    while i < items.len()
        invariant
            i <= items@.len(),
            s@ == start + joined(items@.subrange(0, i as int).map_values(|d: TrustDomainId| domain_debug(d))),
        decreases items@.len() - i,
    {
        let ghost pre = items@.subrange(0, i as int).map_values(|d: TrustDomainId| domain_debug(d));
        if i > 0 {
            s.append(", ");
        }
        push_domain_debug(s, items[i]);
        proof {
            assert(items@.subrange(0, i + 1).map_values(|d: TrustDomainId| domain_debug(d))
                =~= pre.push(domain_debug(items@[i as int])));
            lemma_joined_push(pre, domain_debug(items@[i as int]));
        }
        i = i + 1;
    }
    assert(items@.subrange(0, items@.len() as int) =~= items@);
    s.append("}");
}

/// Checks author scope against a list of role assignments.
#[derive(Clone, Debug)]
pub struct DefaultScopeChecker {
    /// The role assignments.
    pub assignments: Vec<RoleAssignment>,
}

fn contains_type(v: &Vec<UnitTypeScope>, t: UnitTypeScope) -> (r: bool)
    ensures r == v@.contains(t),
{
    let mut i: usize = 0;
    while i < v.len()
        invariant
            i <= v@.len(),
            forall|j: int| 0 <= j < i ==> v@[j] != t,
        decreases v@.len() - i,
    {
        if v[i] == t {
            return true;
        }
        i = i + 1;
    }
    false
}

fn contains_domain(v: &Vec<TrustDomainId>, t: TrustDomainId) -> (r: bool)
    ensures r == v@.contains(t),
{
    let mut i: usize = 0;
    while i < v.len()
        invariant
            i <= v@.len(),
            forall|j: int| 0 <= j < i ==> v@[j] != t,
        decreases v@.len() - i,
    {
        if v[i].0 == t.0 {
            return true;
        }
        i = i + 1;
    }
    false
}

fn same_types(a: &Vec<UnitTypeScope>, b: &Vec<UnitTypeScope>) -> (r: bool)
    ensures r == same_set(a@, b@),
{
    let mut i: usize = 0;
    while i < a.len()
        invariant
            i <= a@.len(),
            forall|j: int| 0 <= j < i ==> b@.contains(#[trigger] a@[j]),
        decreases a@.len() - i,
    {
        if !contains_type(b, a[i]) {
            proof {
                assert(a@.contains(a@[i as int]));
            }
            return false;
        }
        i = i + 1;
    }
    let mut i: usize = 0;
    while i < b.len()
        invariant
            i <= b@.len(),
            forall|j: int| 0 <= j < a@.len() ==> b@.contains(#[trigger] a@[j]),
            forall|j: int| 0 <= j < i ==> a@.contains(#[trigger] b@[j]),
        decreases b@.len() - i,
    {
        if !contains_type(a, b[i]) {
            proof {
                assert(b@.contains(b@[i as int]));
            }
            return false;
        }
        i = i + 1;
    }
    proof {
        assert forall|x: UnitTypeScope| a@.contains(x) <==> b@.contains(x) by {
            if a@.contains(x) {
                let j = choose|j: int| 0 <= j < a@.len() && a@[j] == x;
                assert(b@.contains(a@[j]));
            }
            if b@.contains(x) {
                let j = choose|j: int| 0 <= j < b@.len() && b@[j] == x;
                assert(a@.contains(b@[j]));
            }
        }
    }
    true
}

fn same_domains(a: &Vec<TrustDomainId>, b: &Vec<TrustDomainId>) -> (r: bool)
    ensures r == same_set(a@, b@),
{
    let mut i: usize = 0;
    while i < a.len()
        invariant
            i <= a@.len(),
            forall|j: int| 0 <= j < i ==> b@.contains(#[trigger] a@[j]),
        decreases a@.len() - i,
    {
        if !contains_domain(b, a[i]) {
            proof {
                assert(a@.contains(a@[i as int]));
            }
            return false;
        }
        i = i + 1;
    }
    let mut i: usize = 0;
    while i < b.len()
        invariant
            i <= b@.len(),
            forall|j: int| 0 <= j < a@.len() ==> b@.contains(#[trigger] a@[j]),
            forall|j: int| 0 <= j < i ==> a@.contains(#[trigger] b@[j]),
        decreases b@.len() - i,
    {
        if !contains_domain(a, b[i]) {
            proof {
                assert(b@.contains(b@[i as int]));
            }
            return false;
        }
        i = i + 1;
    }
    proof {
        assert forall|x: TrustDomainId| a@.contains(x) <==> b@.contains(x) by {
            if a@.contains(x) {
                let j = choose|j: int| 0 <= j < a@.len() && a@[j] == x;
                assert(b@.contains(a@[j]));
            }
            if b@.contains(x) {
                let j = choose|j: int| 0 <= j < b@.len() && b@[j] == x;
                assert(a@.contains(b@[j]));
            }
        }
    }
    true
}

fn same_group_exec(s: &Vec<RoleAssignment>, t: UnitTypeScope, i: usize, j: usize) -> (r: bool)
    requires
        i < s@.len(),
        j < s@.len(),
    ensures
        r == same_group(s@, t, i as int, j as int),
{
    contains_type(&s[i].unit_type_scope, t) && contains_type(&s[j].unit_type_scope, t)
        && same_types(&s[i].unit_type_scope, &s[j].unit_type_scope)
        && same_domains(&s[i].trust_domain_scope, &s[j].trust_domain_scope)
}

impl DefaultScopeChecker {
    /// A checker with no assignment.
    pub fn new() -> (r: Self)
        ensures r.assignments@.len() == 0,
    {
        DefaultScopeChecker { assignments: Vec::new() }
    }

    /// A checker with the given assignments.
    pub fn from_assignments(assignments: Vec<RoleAssignment>) -> (r: Self)
        ensures r.assignments@ == assignments@,
    {
        DefaultScopeChecker { assignments }
    }

    /// Adds an assignment.
    pub fn add_assignment(&mut self, assignment: RoleAssignment)
        ensures final(self).assignments@ == old(self).assignments@.push(assignment),
    {
        self.assignments.push(assignment);
    }

    /// Succeeds when some assignment lets the author create units of the
    /// kind in the trust domain; otherwise a scope violation.
    pub fn check_author_scope(&self, author: &AuthorId, unit_type: UnitKind, trust_domain: &TrustDomainId) -> (r: Result<(), SecurityError>)
        ensures
            (exists|i: int| 0 <= i < self.assignments@.len() && grants(#[trigger] self.assignments@[i], *author, unit_type, *trust_domain))
                ==> r is Ok,
            !(exists|i: int| 0 <= i < self.assignments@.len() && grants(#[trigger] self.assignments@[i], *author, unit_type, *trust_domain))
                ==> (r matches Err(SecurityError::ScopeViolation { author: a, reason }) && a == *author
                    && reason@ == scope_reason(unit_type, *trust_domain)),
    {
        let target = scope_of_kind(unit_type);
        let mut i: usize = 0;
        while i < self.assignments.len()
            invariant
                i <= self.assignments@.len(),
                target == scope_of(unit_type),
                forall|j: int| 0 <= j < i ==> !grants(#[trigger] self.assignments@[j], *author, unit_type, *trust_domain),
            decreases self.assignments@.len() - i,
        {
            let a = &self.assignments[i];
            if a.assignee.0 == author.0 && contains_type(&a.unit_type_scope, target)
                && contains_domain(&a.trust_domain_scope, *trust_domain) {
                proof {
                    assert(grants(self.assignments@[i as int], *author, unit_type, *trust_domain));
                }
                return Ok(());
            }
            i = i + 1;
        }
        let mut reason = String::new();
        proof {
            reveal_strlit("author does not have ");
            reveal_strlit(" scope in trust domain TrustDomainId(");
            reveal_strlit(")");
        }
        reason.append("author does not have ");
        push_kind_name(&mut reason, unit_type);
        reason.append(" scope in trust domain TrustDomainId(");
        let text = id_to_text(trust_domain.0);
        reason.append(text.as_str());
        reason.append(")");
        assert(reason@ =~= scope_reason(unit_type, *trust_domain));
        Err(SecurityError::ScopeViolation { author: *author, reason })
    }
}

impl DefaultScopeChecker {
    /// For state-producing kinds (workload, data), refuses assignments in
    /// which two distinct authors share a scope tuple (the same sets of unit
    /// types and trust domains, including the kind): the first such group
    /// in order of appearance is reported with its smallest author. Policy
    /// and governance scopes may overlap.
    pub fn validate_scope_uniqueness(&self, assignments: &Vec<RoleAssignment>, unit_type: UnitKind) -> (r: Result<(), SecurityError>)
        ensures
            (unit_type == UnitKind::Policy || unit_type == UnitKind::Governance) ==> r is Ok,
            !(unit_type == UnitKind::Policy || unit_type == UnitKind::Governance) ==> match r {
                Ok(()) => forall|f: int| !#[trigger] shared_group(assignments@, scope_of(unit_type), f),
                Err(e) => exists|f: int| #[trigger] first_shared_group(assignments@, scope_of(unit_type), f)
                    && (e matches SecurityError::ScopeViolation { author, reason }
                    && least_author(assignments@, scope_of(unit_type), f, author)
                    && reason@ == uniqueness_reason(unit_type, assignments@[f])),
            },
    {
        if unit_type == UnitKind::Policy || unit_type == UnitKind::Governance {
            return Ok(());
        }
        let t = scope_of_kind(unit_type);
        let n = assignments.len();
        let mut f: usize = 0;
        while f < n
            invariant
                f <= n,
                n == assignments@.len(),
                t == scope_of(unit_type),
                !(unit_type == UnitKind::Policy || unit_type == UnitKind::Governance),
                forall|g: int| 0 <= g < f ==> !#[trigger] shared_group(assignments@, t, g),
            decreases n - f,
        {
            if contains_type(&assignments[f].unit_type_scope, t) {
                let mut head = true;
                let mut j: usize = 0;
                while j < f
                    invariant
                        j <= f,
                        f < n,
                        n == assignments@.len(),
                        head ==> forall|q: int| 0 <= q < j ==> !#[trigger] same_group(assignments@, t, q, f as int),
                        !head ==> exists|q: int| 0 <= q < f && #[trigger] same_group(assignments@, t, q, f as int),
                    decreases f - j,
                {
                    if same_group_exec(assignments, t, j, f) {
                        head = false;
                    }
                    j = j + 1;
                }
                if head {
                    proof {
                        assert(same_group(assignments@, t, f as int, f as int));
                    }
                    let mut least = assignments[f].assignee;
                    let mut two = false;
                    let mut j: usize = 0;
                    while j < n
                        invariant
                            j <= n,
                            f < n,
                            n == assignments@.len(),
                            group_head(assignments@, t, f as int),
                            exists|q: int| #[trigger] same_group(assignments@, t, f as int, q) && assignments@[q].assignee == least,
                            forall|q: int| 0 <= q < j && #[trigger] same_group(assignments@, t, f as int, q) ==> least.0 <= assignments@[q].assignee.0,
                            least.0 <= assignments@[f as int].assignee.0,
                            two <==> exists|q: int| 0 <= q < j && #[trigger] same_group(assignments@, t, f as int, q)
                                && assignments@[q].assignee != assignments@[f as int].assignee,
                        decreases n - j,
                    {
                        if same_group_exec(assignments, t, f, j) {
                            if assignments[j].assignee.0 != assignments[f].assignee.0 {
                                two = true;
                            }
                            if assignments[j].assignee.0 < least.0 {
                                least = assignments[j].assignee;
                            }
                        }
                        j = j + 1;
                    }
                    if two {
                        let mut reason = String::new();
                        proof {
                            reveal_strlit("two or more distinct authors have identical scope tuple ");
                            reveal_strlit("(unit_type_scope=");
                            reveal_strlit(", trust_domain_scope=");
                            reveal_strlit(")");
                            reveal_strlit(" for state-producing unit type ");
                            reveal_strlit(" (INV-S8)");
                        }
                        reason.append("two or more distinct authors have identical scope tuple ");
                        reason.append("(unit_type_scope=");
                        let types = firsts_types(&assignments[f].unit_type_scope);
                        push_type_set(&mut reason, &types);
                        reason.append(", trust_domain_scope=");
                        let domains = firsts_domains(&assignments[f].trust_domain_scope);
                        push_domain_set(&mut reason, &domains);
                        reason.append(")");
                        reason.append(" for state-producing unit type ");
                        push_kind_name(&mut reason, unit_type);
                        reason.append(" (INV-S8)");
                        assert(reason@ =~= uniqueness_reason(unit_type, assignments@[f as int]));
                        proof {
                            assert(shared_group(assignments@, t, f as int));
                            assert(first_shared_group(assignments@, t, f as int));
                        }
                        return Err(SecurityError::ScopeViolation { author: least, reason });
                    }
                    proof {
                        assert(!shared_group(assignments@, t, f as int));
                    }
                } else {
                    proof {
                        assert(!group_head(assignments@, t, f as int));
                    }
                }
            }
            f = f + 1;
        }
        Ok(())
    }
}

/// Each scope grants exactly the unit kind of the same name: an assignment
/// whose only type scope is Workload, Data, Policy or Governance lets its
/// author create units of that kind and of no other; distinct kinds need
/// distinct scopes.
pub proof fn lemma_scope_grants_its_kind(a: RoleAssignment, author: AuthorId, k: UnitKind, domain: TrustDomainId)
    requires
        a.assignee == author,
        a.trust_domain_scope@.contains(domain),
    ensures
        a.unit_type_scope@ == seq![UnitTypeScope::Workload] ==> (grants(a, author, k, domain) <==> k == UnitKind::Workload),
        a.unit_type_scope@ == seq![UnitTypeScope::Data] ==> (grants(a, author, k, domain) <==> k == UnitKind::Data),
        a.unit_type_scope@ == seq![UnitTypeScope::Policy] ==> (grants(a, author, k, domain) <==> k == UnitKind::Policy),
        a.unit_type_scope@ == seq![UnitTypeScope::Governance] ==> (grants(a, author, k, domain) <==> k == UnitKind::Governance),
{
    assert(seq![UnitTypeScope::Workload].contains(UnitTypeScope::Workload) && seq![UnitTypeScope::Workload][0] == UnitTypeScope::Workload);
    assert(seq![UnitTypeScope::Data][0] == UnitTypeScope::Data && seq![UnitTypeScope::Data].contains(UnitTypeScope::Data));
    assert(seq![UnitTypeScope::Policy][0] == UnitTypeScope::Policy && seq![UnitTypeScope::Policy].contains(UnitTypeScope::Policy));
    assert(seq![UnitTypeScope::Governance][0] == UnitTypeScope::Governance
        && seq![UnitTypeScope::Governance].contains(UnitTypeScope::Governance));
}

/// Distinct unit kinds fall under distinct scopes.
pub proof fn lemma_scope_of_injective(k1: UnitKind, k2: UnitKind)
    ensures
        scope_of(k1) == scope_of(k2) ==> k1 == k2,
{
}

} // verus!
