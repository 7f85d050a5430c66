//! The request-scope accounting: a deduplicated, canonically ordered set of
//! permission scopes and its rendering to the provider's space-separated
//! scope string.

use vstd::prelude::*;

verus! {

/// The closed, provider-defined set of permission scopes.
#[derive(Clone, Copy, Debug, PartialEq, Eq, Structural)]
pub enum ScopeList {
    ReadStructures,
    SearchStructures,
    StructureMarkets,
}

/// The canonical string form of a scope, by which scopes are compared and
/// under which they appear in the rendered scope string.
pub open spec fn scope_name(s: ScopeList) -> Seq<char> {
    match s {
        ScopeList::ReadStructures => "esi-universe.read_structures.v1"@,
        ScopeList::SearchStructures => "esi-search.search_structures.v1"@,
        ScopeList::StructureMarkets => "esi-markets.structure_markets.v1"@,
    }
}

/// The position of a scope in the lexicographic order of the canonical
/// names: "esi-markets..." < "esi-search..." < "esi-universe...".
pub open spec fn scope_rank(s: ScopeList) -> int {
    match s {
        ScopeList::StructureMarkets => 0,
        ScopeList::SearchStructures => 1,
        ScopeList::ReadStructures => 2,
    }
}

/// Strict lexicographic order on character sequences, by code point; a
/// proper prefix comes before its extensions.
pub open spec fn lex_before(a: Seq<char>, b: Seq<char>) -> bool
    decreases a.len(),
{
    if b.len() == 0 {
        false
    } else if a.len() == 0 {
        true
    } else if a[0] != b[0] {
        (a[0] as int) < (b[0] as int)
    } else {
        lex_before(a.skip(1), b.skip(1))
    }
}

/// Strictly increasing rank: sorted in canonical order, with no duplicates.
pub open spec fn scopes_sorted(s: Seq<ScopeList>) -> bool {
    forall|i: int, j: int| 0 <= i < j < s.len() ==> scope_rank(s[i]) < scope_rank(s[j])
}

/// The scopes joined by a single space: no leading or trailing space, and
/// the empty sequence renders to the empty string.
pub open spec fn render_scopes(s: Seq<ScopeList>) -> Seq<char>
    decreases s.len(),
{
    if s.len() == 0 {
        Seq::empty()
    } else if s.len() == 1 {
        scope_name(s[0])
    } else {
        scope_name(s[0]) + seq![' '] + render_scopes(s.skip(1))
    }
}

/// Where a scope lands in a sorted sequence: the number of members that
/// precede it in canonical order.
pub open spec fn insert_pos(s: Seq<ScopeList>, x: ScopeList) -> int
    decreases s.len(),
{
    if s.len() == 0 {
        0
    } else if scope_rank(s[0]) < scope_rank(x) {
        1 + insert_pos(s.skip(1), x)
    } else {
        0
    }
}

/// One insertion attempt: whether the scope was newly inserted, and the
/// resulting membership sequence.
pub open spec fn spec_add(s: Seq<ScopeList>, x: ScopeList) -> (bool, Seq<ScopeList>) {
    if s.contains(x) {
        (false, s)
    } else {
        (true, s.insert(insert_pos(s, x), x))
    }
}

/// One removal attempt: whether the scope was a member, and the resulting
/// membership sequence.
pub open spec fn spec_remove(s: Seq<ScopeList>, x: ScopeList) -> (bool, Seq<ScopeList>) {
    if s.contains(x) {
        (true, s.remove_value(x))
    } else {
        (false, s)
    }
}

/// A batch of insertion attempts, first to last: the resulting membership
/// sequence, the scopes newly inserted, and the scopes already present.
pub open spec fn spec_add_many(s: Seq<ScopeList>, xs: Seq<ScopeList>) -> (
    Seq<ScopeList>,
    Seq<ScopeList>,
    Seq<ScopeList>,
)
    decreases xs.len(),
{
    if xs.len() == 0 {
        (s, Seq::empty(), Seq::empty())
    } else {
        let one = spec_add(s, xs[0]);
        let rest = spec_add_many(one.1, xs.skip(1));
        if one.0 {
            (rest.0, seq![xs[0]] + rest.1, rest.2)
        } else {
            (rest.0, rest.1, seq![xs[0]] + rest.2)
        }
    }
}

/// A batch of removal attempts, first to last: the resulting membership
/// sequence, the scopes removed, and the scopes that were not members.
pub open spec fn spec_remove_many(s: Seq<ScopeList>, xs: Seq<ScopeList>) -> (
    Seq<ScopeList>,
    Seq<ScopeList>,
    Seq<ScopeList>,
)
    decreases xs.len(),
{
    if xs.len() == 0 {
        (s, Seq::empty(), Seq::empty())
    } else {
        let one = spec_remove(s, xs[0]);
        let rest = spec_remove_many(one.1, xs.skip(1));
        if one.0 {
            (rest.0, seq![xs[0]] + rest.1, rest.2)
        } else {
            (rest.0, rest.1, seq![xs[0]] + rest.2)
        }
    }
}

impl ScopeList {
    /// The canonical string form of this scope.
    pub fn canonical_name(&self) -> (r: String)
        ensures
            r@ == scope_name(*self),
    {
        match self {
            ScopeList::ReadStructures => "esi-universe.read_structures.v1".to_owned(),
            ScopeList::SearchStructures => "esi-search.search_structures.v1".to_owned(),
            ScopeList::StructureMarkets => "esi-markets.structure_markets.v1".to_owned(),
        }
    }

    /// The rank of this scope in the canonical order.
    pub fn rank(&self) -> (r: u8)
        ensures
            r as int == scope_rank(*self),
    {
        match self {
            ScopeList::StructureMarkets => 0,
            ScopeList::SearchStructures => 1,
            ScopeList::ReadStructures => 2,
        }
    }
}

/// An ordered, deduplicated collection of scopes together with the cached
/// rendering used in the authorization URL.
pub struct ScopeManager {
    pub scopes: Vec<ScopeList>,
    pub scope_str: String,
}

impl View for ScopeManager {
    type V = Seq<ScopeList>;

    open spec fn view(&self) -> Seq<ScopeList> {
        self.scopes@
    }
}

impl ScopeManager {
    /// Well-formed: members strictly ordered by canonical name, and the
    /// cached string is their rendering.
    pub open spec fn wf(&self) -> bool {
        &&& scopes_sorted(self.scopes@)
        &&& self.scope_str@ == render_scopes(self.scopes@)
    }

    /// An empty scope set, rendering to the empty string.
    pub fn new() -> (r: ScopeManager)
        ensures
            r.wf(),
            r@ == Seq::<ScopeList>::empty(),
            r.scope_str@ == Seq::<char>::empty(),
    {
        ScopeManager { scopes: Vec::new(), scope_str: String::new() }
    }

    /// The current space-joined scope string.
    pub fn get_scope_string(&self) -> (r: &str)
        ensures
            r@ == self.scope_str@,
    {
        self.scope_str.as_str()
    }

    /// Recomputes the cached scope string from the current members.
    pub fn update_scope_string(&mut self)
        ensures
            final(self).scopes@ == old(self).scopes@,
            final(self).scope_str@ == render_scopes(old(self).scopes@),
    {
        let mut out = String::new();
        let n = self.scopes.len();
        let mut i: usize = 0;
        while i < n
            invariant
                i <= n,
                n == self.scopes@.len(),
                self.scopes@ == old(self).scopes@,
                self.scope_str == old(self).scope_str,
                out@ == render_scopes(self.scopes@.take(i as int)),
            decreases n - i,
        {
            if i > 0 {
                out.append(" ");
            }
            let name = self.scopes[i].canonical_name();
            out.append(name.as_str());
            proof {
                let s = self.scopes@;
                reveal_strlit(" ");
                assert(" "@ =~= seq![' ']);
                lemma_render_push(s.take(i as int), s[i as int]);
                assert(s.take(i as int).push(s[i as int]) =~= s.take(i + 1 as int));
                if i == 0 {
                    assert(out@ =~= render_scopes(s.take(i + 1 as int)));
                } else {
                    assert(out@ =~= render_scopes(s.take(i as int)) + seq![' '] + scope_name(
                        s[i as int],
                    ));
                }
            }
            i = i + 1;
        }
        proof {
            assert(self.scopes@.take(n as int) =~= self.scopes@);
        }
        self.scope_str = out;
    }

    /// First position whose member does not precede `scope` in canonical
    /// order; the length when every member precedes it.
    fn lower_bound(&self, scope: ScopeList) -> (r: usize)
        requires
            scopes_sorted(self.scopes@),
        ensures
            r <= self.scopes@.len(),
            forall|j: int| 0 <= j < r ==> scope_rank(self.scopes@[j]) < scope_rank(scope),
            r < self.scopes@.len() ==> scope_rank(self.scopes@[r as int]) >= scope_rank(scope),
    {
        let n = self.scopes.len();
        let mut i: usize = 0;
        while i < n
            invariant
                i <= n,
                n == self.scopes@.len(),
                scopes_sorted(self.scopes@),
                forall|j: int| 0 <= j < i ==> scope_rank(self.scopes@[j]) < scope_rank(scope),
            decreases n - i,
        {
            if self.scopes[i].rank() >= scope.rank() {
                return i;
            }
            i = i + 1;
        }
        i
    }

    /// Inserts a scope at its canonical position and recomputes the scope
    /// string; rejects a scope that is already a member, changing nothing.
    pub fn add_scope(&mut self, scope: ScopeList) -> (r: Result<usize, &'static str>)
        requires
            old(self).wf(),
        ensures
            final(self).wf(),
            ({
                let one = spec_add(old(self).scopes@, scope);
                &&& final(self).scopes@ == one.1
                &&& (r is Ok <==> one.0)
            }),
            r matches Ok(idx) ==> idx as int == insert_pos(old(self).scopes@, scope),
            r is Err ==> *final(self) == *old(self),
            final(self).scopes@.to_set() == old(self).scopes@.to_set().insert(scope),
    {
        let r = self.add_scope_noup(scope);
        match r {
            Ok(idx) => {
                self.update_scope_string();
                Ok(idx)
            },
            Err(msg) => Err(msg),
        }
    }

    /// Inserts without recomputing the cached string; used by batch
    /// insertion, which recomputes once at the end.
    fn add_scope_noup(&mut self, scope: ScopeList) -> (r: Result<usize, &'static str>)
        requires
            scopes_sorted(old(self).scopes@),
        ensures
            scopes_sorted(final(self).scopes@),
            final(self).scope_str == old(self).scope_str,
            ({
                let one = spec_add(old(self).scopes@, scope);
                &&& final(self).scopes@ == one.1
                &&& (r is Ok <==> one.0)
            }),
            r matches Ok(idx) ==> idx as int == insert_pos(old(self).scopes@, scope),
            r is Err ==> *final(self) == *old(self),
            final(self).scopes@.to_set() == old(self).scopes@.to_set().insert(scope),
    {
        let idx = self.lower_bound(scope);
        if idx < self.scopes.len() {
            let found = self.scopes[idx];
            if found == scope {
                proof {
                    assert(old(self).scopes@.contains(scope));
                    assert(old(self).scopes@.to_set() =~= old(self).scopes@.to_set().insert(
                        scope,
                    ));
                }
                return Err("Scope already in array");
            }
        }
        proof {
            lemma_rank_injective();
            assert(forall|j: int|
                0 <= j < old(self).scopes@.len() ==> old(self).scopes@[j] != scope);
            assert(!old(self).scopes@.contains(scope));
            lemma_insert_pos_of_bound(old(self).scopes@, scope, idx as int);
            lemma_sorted_insert(old(self).scopes@, scope, idx as int);
        }
        self.scopes.insert(idx, scope);
        proof {
            lemma_insert_to_set(old(self).scopes@, scope, idx as int);
        }
        Ok(idx)
    }

    /// Partitions the given scopes into those newly inserted and those
    /// already present; the scope string is recomputed exactly once.
    pub fn add_scopes(&mut self, scopes: Vec<ScopeList>) -> (r: (Vec<ScopeList>, Vec<ScopeList>))
        requires
            old(self).wf(),
        ensures
            final(self).wf(),
            ({
                let m = spec_add_many(old(self).scopes@, scopes@);
                &&& final(self).scopes@ == m.0
                &&& r.0@ == m.1
                &&& r.1@ == m.2
            }),
    {
        let ghost orig = self.scopes@;
        let ghost xs = scopes@;
        let mut suc_v: Vec<ScopeList> = Vec::new();
        let mut err_v: Vec<ScopeList> = Vec::new();
        proof {
            assert(xs.skip(0) =~= xs);
            assert(Seq::<ScopeList>::empty() + spec_add_many(orig, xs).1 =~= spec_add_many(
                orig,
                xs,
            ).1);
            assert(Seq::<ScopeList>::empty() + spec_add_many(orig, xs).2 =~= spec_add_many(
                orig,
                xs,
            ).2);
        }
        let n = scopes.len();
        let mut i: usize = 0;
        while i < n
            invariant
                i <= n,
                n == xs.len(),
                scopes@ == xs,
                scopes_sorted(self.scopes@),
                self.scope_str == old(self).scope_str,
                spec_add_many(orig, xs).0 == spec_add_many(self.scopes@, xs.skip(i as int)).0,
                spec_add_many(orig, xs).1 == suc_v@ + spec_add_many(
                    self.scopes@,
                    xs.skip(i as int),
                ).1,
                spec_add_many(orig, xs).2 == err_v@ + spec_add_many(
                    self.scopes@,
                    xs.skip(i as int),
                ).2,
            decreases n - i,
        {
            let ghost pre = self.scopes@;
            let scope = scopes[i];
            let res = self.add_scope_noup(scope);
            proof {
                assert(xs.skip(i as int)[0] == xs[i as int]);
                assert(xs.skip(i as int).skip(1) =~= xs.skip(i + 1 as int));
            }
            match res {
                Ok(_) => {
                    suc_v.push(scope);
                    proof {
                        let rest = spec_add_many(self.scopes@, xs.skip(i + 1 as int));
                        assert(suc_v@ + rest.1 =~= suc_v@.drop_last() + (seq![xs[i as int]]
                            + rest.1));
                    }
                },
                Err(_) => {
                    err_v.push(scope);
                    proof {
                        let rest = spec_add_many(self.scopes@, xs.skip(i + 1 as int));
                        assert(err_v@ + rest.2 =~= err_v@.drop_last() + (seq![xs[i as int]]
                            + rest.2));
                    }
                },
            }
            i = i + 1;
        }
        proof {
            assert(xs.skip(n as int) =~= Seq::<ScopeList>::empty());
            assert(suc_v@ + Seq::<ScopeList>::empty() =~= suc_v@);
            assert(err_v@ + Seq::<ScopeList>::empty() =~= err_v@);
        }
        self.update_scope_string();
        (suc_v, err_v)
    }

    /// Removes without recomputing the cached string; used by batch
    /// removal, which recomputes once at the end.
    fn remove_scope_noup(&mut self, scope: ScopeList) -> (r: Result<ScopeList, &'static str>)
        requires
            scopes_sorted(old(self).scopes@),
        ensures
            scopes_sorted(final(self).scopes@),
            final(self).scope_str == old(self).scope_str,
            ({
                let one = spec_remove(old(self).scopes@, scope);
                &&& final(self).scopes@ == one.1
                &&& (r is Ok <==> one.0)
            }),
            r matches Ok(sc) ==> sc == scope,
            r is Err ==> *final(self) == *old(self),
    {
        let idx = self.lower_bound(scope);
        if idx < self.scopes.len() {
            let found = self.scopes[idx];
            if found == scope {
                proof {
                    let s = old(self).scopes@;
                    assert(s.contains(scope));
                    lemma_remove_at_unique(s, scope, idx as int);
                    lemma_sorted_remove(s, idx as int);
                }
                let sc = self.scopes.remove(idx);
                return Ok(sc);
            }
        }
        proof {
            lemma_rank_injective();
            assert(forall|j: int|
                0 <= j < old(self).scopes@.len() ==> old(self).scopes@[j] != scope);
            assert(!old(self).scopes@.contains(scope));
        }
        Err("Scope not in array")
    }

    /// Removes a scope and recomputes the scope string; removing a scope
    /// that is not a member fails and changes nothing, so the rendered
    /// string is left as it was.
    pub fn remove_scope(&mut self, scope: ScopeList) -> (r: Result<ScopeList, &'static str>)
        requires
            old(self).wf(),
        ensures
            final(self).wf(),
            ({
                let one = spec_remove(old(self).scopes@, scope);
                &&& final(self).scopes@ == one.1
                &&& (r is Ok <==> one.0)
            }),
            r matches Ok(sc) ==> sc == scope,
            r is Err ==> *final(self) == *old(self),
    {
        let r = self.remove_scope_noup(scope);
        match r {
            Ok(sc) => {
                self.update_scope_string();
                Ok(sc)
            },
            Err(msg) => Err(msg),
        }
    }

    /// Partitions the given scopes into those removed and those that were
    /// not members; the scope string is recomputed exactly once.
    pub fn remove_scopes(&mut self, scopes: Vec<ScopeList>) -> (r: (
        Vec<ScopeList>,
        Vec<ScopeList>,
    ))
        requires
            old(self).wf(),
        ensures
            final(self).wf(),
            ({
                let m = spec_remove_many(old(self).scopes@, scopes@);
                &&& final(self).scopes@ == m.0
                &&& r.0@ == m.1
                &&& r.1@ == m.2
            }),
    {
        let ghost orig = self.scopes@;
        let ghost xs = scopes@;
        let mut suc_v: Vec<ScopeList> = Vec::new();
        let mut err_v: Vec<ScopeList> = Vec::new();
        proof {
            assert(xs.skip(0) =~= xs);
            assert(Seq::<ScopeList>::empty() + spec_remove_many(orig, xs).1 =~= spec_remove_many(
                orig,
                xs,
            ).1);
            assert(Seq::<ScopeList>::empty() + spec_remove_many(orig, xs).2 =~= spec_remove_many(
                orig,
                xs,
            ).2);
        }
        let n = scopes.len();
        let mut i: usize = 0;
        while i < n
            invariant
                i <= n,
                n == xs.len(),
                scopes@ == xs,
                scopes_sorted(self.scopes@),
                self.scope_str == old(self).scope_str,
                spec_remove_many(orig, xs).0 == spec_remove_many(self.scopes@, xs.skip(i as int)).0,
                spec_remove_many(orig, xs).1 == suc_v@ + spec_remove_many(
                    self.scopes@,
                    xs.skip(i as int),
                ).1,
                spec_remove_many(orig, xs).2 == err_v@ + spec_remove_many(
                    self.scopes@,
                    xs.skip(i as int),
                ).2,
            decreases n - i,
        {
            let scope = scopes[i];
            let res = self.remove_scope_noup(scope);
            proof {
                assert(xs.skip(i as int)[0] == xs[i as int]);
                assert(xs.skip(i as int).skip(1) =~= xs.skip(i + 1 as int));
            }
            match res {
                Ok(_) => {
                    suc_v.push(scope);
                    proof {
                        let rest = spec_remove_many(self.scopes@, xs.skip(i + 1 as int));
                        assert(suc_v@ + rest.1 =~= suc_v@.drop_last() + (seq![xs[i as int]]
                            + rest.1));
                    }
                },
                Err(_) => {
                    err_v.push(scope);
                    proof {
                        let rest = spec_remove_many(self.scopes@, xs.skip(i + 1 as int));
                        assert(err_v@ + rest.2 =~= err_v@.drop_last() + (seq![xs[i as int]]
                            + rest.2));
                    }
                },
            }
            i = i + 1;
        }
        proof {
            assert(xs.skip(n as int) =~= Seq::<ScopeList>::empty());
            assert(suc_v@ + Seq::<ScopeList>::empty() =~= suc_v@);
            assert(err_v@ + Seq::<ScopeList>::empty() =~= err_v@);
        }
        self.update_scope_string();
        (suc_v, err_v)
    }
}

/// Distinct scopes have distinct ranks.
proof fn lemma_rank_injective()
    ensures
        forall|a: ScopeList, b: ScopeList| scope_rank(a) == scope_rank(b) ==> a == b,
{
}

/// Appending one scope at the back extends the rendering by a separating
/// space and the scope's canonical name.
proof fn lemma_render_push(s: Seq<ScopeList>, x: ScopeList)
    ensures
        render_scopes(s.push(x)) == if s.len() == 0 {
            scope_name(x)
        } else {
            render_scopes(s) + seq![' '] + scope_name(x)
        },
    decreases s.len(),
{
    if s.len() == 0 {
        assert(s.push(x) =~= seq![x]);
        assert(render_scopes(seq![x]) == scope_name(seq![x][0]));
    } else {
        assert(s.push(x).skip(1) =~= s.skip(1).push(x));
        lemma_render_push(s.skip(1), x);
        assert(s.push(x)[0] == s[0]);
        assert(s.push(x).len() == s.len() + 1 >= 2);
        if s.len() == 1 {
            assert(s.skip(1).len() == 0);
            assert(render_scopes(s.push(x)) == scope_name(s[0]) + seq![' '] + scope_name(x));
            assert(render_scopes(s) == scope_name(s[0]));
        } else {
            assert(render_scopes(s.push(x)) == scope_name(s[0]) + seq![' '] + (render_scopes(
                s.skip(1),
            ) + seq![' '] + scope_name(x)));
            assert(render_scopes(s) + seq![' '] + scope_name(x) == (scope_name(s[0]) + seq![' ']
                + render_scopes(s.skip(1))) + seq![' '] + scope_name(x));
            assert(scope_name(s[0]) + seq![' '] + (render_scopes(s.skip(1)) + seq![' ']
                + scope_name(x)) =~= (scope_name(s[0]) + seq![' '] + render_scopes(s.skip(1)))
                + seq![' '] + scope_name(x));
        }
    }
}

/// A position bounded below by smaller ranks and above by a larger-or-equal
/// rank is the canonical insertion position.
proof fn lemma_insert_pos_of_bound(s: Seq<ScopeList>, x: ScopeList, n: int)
    requires
        scopes_sorted(s),
        0 <= n <= s.len(),
        forall|j: int| 0 <= j < n ==> scope_rank(s[j]) < scope_rank(x),
        n < s.len() ==> scope_rank(s[n]) >= scope_rank(x),
    ensures
        insert_pos(s, x) == n,
    decreases s.len(),
{
    if s.len() == 0 {
    } else if scope_rank(s[0]) < scope_rank(x) {
        assert(n != 0);
        lemma_insert_pos_of_bound(s.skip(1), x, n - 1);
    } else {
        assert(n == 0);
    }
}

/// Inserting a non-member at its canonical position keeps the sequence
/// strictly sorted.
proof fn lemma_sorted_insert(s: Seq<ScopeList>, x: ScopeList, n: int)
    requires
        scopes_sorted(s),
        0 <= n <= s.len(),
        forall|j: int| 0 <= j < n ==> scope_rank(s[j]) < scope_rank(x),
        forall|j: int| n <= j < s.len() ==> scope_rank(s[j]) > scope_rank(x),
    ensures
        scopes_sorted(s.insert(n, x)),
{
    let t = s.insert(n, x);
    assert forall|i: int, j: int| 0 <= i < j < t.len() implies scope_rank(t[i]) < scope_rank(
        t[j],
    ) by {
        if i < n && j < n {
        } else if i < n && j == n {
        } else if i == n && j > n {
            assert(t[j] == s[j - 1]);
        } else if i < n && j > n {
            assert(t[j] == s[j - 1]);
        } else {
            assert(t[i] == s[i - 1] && t[j] == s[j - 1]);
        }
    }
}

/// Inserting a scope adds exactly that scope to the membership set.
proof fn lemma_insert_to_set(s: Seq<ScopeList>, x: ScopeList, n: int)
    requires
        0 <= n <= s.len(),
    ensures
        s.insert(n, x).to_set() == s.to_set().insert(x),
{
    let t = s.insert(n, x);
    assert forall|c: ScopeList| t.to_set().contains(c) implies s.to_set().insert(x).contains(
        c,
    ) by {
        let i = choose|i: int| 0 <= i < t.len() && t[i] == c;
        if i < n {
            assert(s[i] == c);
        } else if i == n {
        } else {
            assert(s[i - 1] == c);
        }
    }
    assert forall|c: ScopeList| s.to_set().insert(x).contains(c) implies t.to_set().contains(
        c,
    ) by {
        if c == x {
            assert(t[n] == c);
        } else {
            let i = choose|i: int| 0 <= i < s.len() && s[i] == c;
            if i < n {
                assert(t[i] == c);
            } else {
                assert(t[i + 1] == c);
            }
        }
    }
    assert(t.to_set() =~= s.to_set().insert(x));
}

/// In a strictly sorted sequence a member occurs at exactly one position,
/// so removing by value removes that position.
proof fn lemma_remove_at_unique(s: Seq<ScopeList>, x: ScopeList, n: int)
    requires
        scopes_sorted(s),
        0 <= n < s.len(),
        s[n] == x,
    ensures
        s.remove_value(x) == s.remove(n),
        s.contains(x),
{
    assert(s.contains(x));
    assert forall|j: int| 0 <= j < s.len() && s[j] == x implies j == n by {
        if j < n {
            assert(scope_rank(s[j]) < scope_rank(s[n]));
        } else if j > n {
            assert(scope_rank(s[n]) < scope_rank(s[j]));
        }
    }
    s.index_of_first_ensures(x);
    assert(s.index_of_first(x) matches Some(i) && i == n);
}

/// Removing a position keeps the sequence strictly sorted.
proof fn lemma_sorted_remove(s: Seq<ScopeList>, n: int)
    requires
        scopes_sorted(s),
        0 <= n < s.len(),
    ensures
        scopes_sorted(s.remove(n)),
{
    let t = s.remove(n);
    assert forall|i: int, j: int| 0 <= i < j < t.len() implies scope_rank(t[i]) < scope_rank(
        t[j],
    ) by {
        if i < n && j < n {
        } else if i < n && j >= n {
            assert(t[j] == s[j + 1]);
        } else {
            assert(t[i] == s[i + 1] && t[j] == s[j + 1]);
        }
    }
}

/// Two strictly sorted sequences with the same membership set are equal.
proof fn lemma_sorted_set_unique(a: Seq<ScopeList>, b: Seq<ScopeList>)
    requires
        scopes_sorted(a),
        scopes_sorted(b),
        a.to_set() == b.to_set(),
    ensures
        a == b,
    decreases a.len(),
{
    lemma_rank_injective();
    if a.len() == 0 {
        if b.len() > 0 {
            assert(b.to_set().contains(b[0]));
            assert(a.to_set().contains(b[0]));
        }
        assert(a =~= b);
    } else {
        assert(a.to_set().contains(a[0]));
        assert(b.to_set().contains(a[0]));
        let jb = choose|j: int| 0 <= j < b.len() && b[j] == a[0];
        assert(b.to_set().contains(b[0]));
        assert(a.to_set().contains(b[0]));
        let ja = choose|j: int| 0 <= j < a.len() && a[j] == b[0];
        assert(scope_rank(b[0]) <= scope_rank(b[jb]));
        assert(scope_rank(a[0]) <= scope_rank(a[ja]));
        assert(a[0] == b[0]);
        assert forall|c: ScopeList| a.skip(1).to_set().contains(c) implies b.skip(
            1,
        ).to_set().contains(c) by {
            let i = choose|i: int| 0 <= i < a.skip(1).len() && a.skip(1)[i] == c;
            assert(a[i + 1] == c);
            assert(scope_rank(a[0]) < scope_rank(c));
            assert(a.to_set().contains(c));
            assert(b.to_set().contains(c));
            let j = choose|j: int| 0 <= j < b.len() && b[j] == c;
            assert(j != 0);
            assert(b.skip(1)[j - 1] == c);
        }
        assert forall|c: ScopeList| b.skip(1).to_set().contains(c) implies a.skip(
            1,
        ).to_set().contains(c) by {
            let i = choose|i: int| 0 <= i < b.skip(1).len() && b.skip(1)[i] == c;
            assert(b[i + 1] == c);
            assert(scope_rank(b[0]) < scope_rank(c));
            assert(b.to_set().contains(c));
            assert(a.to_set().contains(c));
            let j = choose|j: int| 0 <= j < a.len() && a[j] == c;
            assert(j != 0);
            assert(a.skip(1)[j - 1] == c);
        }
        assert(a.skip(1).to_set() =~= b.skip(1).to_set());
        assert(scopes_sorted(a.skip(1))) by {
            assert(forall|i: int, j: int|
                0 <= i < j < a.skip(1).len() ==> scope_rank(a.skip(1)[i]) < scope_rank(
                    a.skip(1)[j],
                ));
        }
        assert(scopes_sorted(b.skip(1))) by {
            assert(forall|i: int, j: int|
                0 <= i < j < b.skip(1).len() ==> scope_rank(b.skip(1)[i]) < scope_rank(
                    b.skip(1)[j],
                ));
        }
        lemma_sorted_set_unique(a.skip(1), b.skip(1));
        assert(a.len() == b.len());
        assert forall|i: int| 0 <= i < a.len() implies a[i] == b[i] by {
            if i > 0 {
                assert(a.skip(1)[i - 1] == b.skip(1)[i - 1]);
            }
        }
        assert(a =~= b);
    }
}

/// Permutation invariance: the rendered scope string is a function of the
/// membership set alone, independent of the order in which scopes were
/// added or removed.
pub proof fn lemma_render_insertion_order_irrelevant(a: ScopeManager, b: ScopeManager)
    requires
        a.wf(),
        b.wf(),
        a@.to_set() == b@.to_set(),
    ensures
        a.scope_str@ == b.scope_str@,
{
    lemma_sorted_set_unique(a@, b@);
}

/// Inserting an already-present scope is rejected and leaves the
/// membership, hence the rendered string, unchanged: a second insertion of
/// the same scope after a first one always finds it present.
pub proof fn lemma_duplicate_add_rejected(s: Seq<ScopeList>, x: ScopeList)
    requires
        scopes_sorted(s),
    ensures
        ({
            let once = spec_add(s, x).1;
            spec_add(once, x) == (false, once)
        }),
{
    let once = spec_add(s, x).1;
    if s.contains(x) {
        assert(once == s);
    } else {
        let n = insert_pos(s, x);
        lemma_insert_pos_le_len(s, x);
        assert(once[n] == x);
        assert(once.contains(x));
    }
}

/// Sequences that agree up to a position where the first has the smaller
/// character are in lexicographic order.
proof fn lemma_lex_at(a: Seq<char>, b: Seq<char>, n: int)
    requires
        0 <= n < a.len(),
        n < b.len(),
        forall|k: int| 0 <= k < n ==> a[k] == b[k],
        (a[n] as int) < (b[n] as int),
    ensures
        lex_before(a, b),
    decreases n,
{
    if n == 0 {
    } else {
        lemma_lex_at(a.skip(1), b.skip(1), n - 1);
    }
}

/// Sequences that agree up to a position where the first has the larger
/// character are not in lexicographic order.
proof fn lemma_not_lex_at(a: Seq<char>, b: Seq<char>, n: int)
    requires
        0 <= n < a.len(),
        n < b.len(),
        forall|k: int| 0 <= k < n ==> a[k] == b[k],
        (a[n] as int) > (b[n] as int),
    ensures
        !lex_before(a, b),
    decreases n,
{
    if n == 0 {
    } else {
        lemma_not_lex_at(a.skip(1), b.skip(1), n - 1);
    }
}

/// No sequence comes lexicographically before itself.
proof fn lemma_lex_irreflexive(a: Seq<char>)
    ensures
        !lex_before(a, a),
    decreases a.len(),
{
    if a.len() > 0 {
        lemma_lex_irreflexive(a.skip(1));
    }
}

/// The rank order is exactly the lexicographic order of the canonical
/// names: scopes compare by their canonical string form, which makes the
/// rendered scope string a pure function of the membership set.
pub proof fn lemma_rank_is_lexicographic(a: ScopeList, b: ScopeList)
    ensures
        scope_rank(a) < scope_rank(b) <==> lex_before(scope_name(a), scope_name(b)),
{
    reveal_strlit("esi-universe.read_structures.v1");
    reveal_strlit("esi-search.search_structures.v1");
    reveal_strlit("esi-markets.structure_markets.v1");
    let na = scope_name(a);
    let nb = scope_name(b);
    if a == b {
        lemma_lex_irreflexive(na);
    } else if scope_rank(a) < scope_rank(b) {
        lemma_lex_at(na, nb, 4);
    } else {
        lemma_not_lex_at(na, nb, 4);
    }
}

/// The canonical insertion position never exceeds the length.
proof fn lemma_insert_pos_le_len(s: Seq<ScopeList>, x: ScopeList)
    ensures
        0 <= insert_pos(s, x) <= s.len(),
    decreases s.len(),
{
    if s.len() == 0 {
    } else if scope_rank(s[0]) < scope_rank(x) {
        lemma_insert_pos_le_len(s.skip(1), x);
    }
}

} // verus!
