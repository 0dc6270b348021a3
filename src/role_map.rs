use vstd::prelude::*;

verus! {

/// The map that a sequence of `(key, value)` pairs denotes when later pairs
/// overwrite earlier ones that share a key.
pub open spec fn last_wins<V>(s: Seq<(Seq<char>, V)>) -> Map<Seq<char>, V>
    decreases s.len(),
{
    if s.len() == 0 {
        Map::empty()
    } else {
        last_wins(s.drop_last()).insert(s.last().0, s.last().1)
    }
}

/// If `j` is the last position holding key `k`, the map gives `k` the value there.
pub proof fn lemma_last_wins_at<V>(s: Seq<(Seq<char>, V)>, k: Seq<char>, j: int)
    requires
        0 <= j < s.len(),
        s[j].0 == k,
        forall|i: int| j < i < s.len() ==> s[i].0 != k,
    ensures
        last_wins(s).contains_key(k),
        last_wins(s)[k] == s[j].1,
    decreases s.len(),
{
    if j < s.len() - 1 {
        lemma_last_wins_at(s.drop_last(), k, j);
    }
}

/// A key held at no position is absent from the map.
pub proof fn lemma_last_wins_absent<V>(s: Seq<(Seq<char>, V)>, k: Seq<char>)
    requires
        forall|i: int| 0 <= i < s.len() ==> s[i].0 != k,
    ensures
        !last_wins(s).contains_key(k),
    decreases s.len(),
{
    if s.len() > 0 {
        lemma_last_wins_absent(s.drop_last(), k);
    }
}

/// Overwriting the value at the only position of a key is an insert into the map.
proof fn lemma_last_wins_update<V>(s: Seq<(Seq<char>, V)>, j: int, v: V)
    requires
        0 <= j < s.len(),
        forall|i: int| 0 <= i < s.len() && i != j ==> s[i].0 != s[j].0,
    ensures
        last_wins(s.update(j, (s[j].0, v))) == last_wins(s).insert(s[j].0, v),
    decreases s.len(),
{
    let t = s.update(j, (s[j].0, v));
    if j == s.len() - 1 {
        assert(t.drop_last() =~= s.drop_last());
        assert(last_wins(t) =~= last_wins(s).insert(s[j].0, v));
    } else {
        lemma_last_wins_update(s.drop_last(), j, v);
        assert(t.drop_last() =~= s.drop_last().update(j, (s[j].0, v)));
        assert(last_wins(t) =~= last_wins(s).insert(s[j].0, v));
    }
}

/// A guild role as the platform reports it: display name and id.
pub struct GuildRole {
    pub name: String,
    pub id: u64,
}

/// An administrator's configuration document: role display name to emoji.
pub struct AdminConfig {
    pub reaction_roles: Vec<(String, String)>,
}

pub open spec fn role_pairs(roles: Seq<GuildRole>) -> Seq<(Seq<char>, u64)> {
    roles.map_values(|r: GuildRole| (r.name@, r.id))
}

pub open spec fn text_pairs(s: Seq<(String, String)>) -> Seq<(Seq<char>, Seq<char>)> {
    s.map_values(|p: (String, String)| (p.0@, p.1@))
}

pub open spec fn id_pairs(s: Seq<(String, u64)>) -> Seq<(Seq<char>, u64)> {
    s.map_values(|p: (String, u64)| (p.0@, p.1))
}

impl View for AdminConfig {
    type V = Map<Seq<char>, Seq<char>>;

    /// Role name to emoji; a name given twice keeps its last emoji, as a
    /// JSON object read into a map does.
    open spec fn view(&self) -> Map<Seq<char>, Seq<char>> {
        last_wins(text_pairs(self.reaction_roles@))
    }
}

pub open spec fn config_views(cs: Seq<AdminConfig>) -> Seq<Map<Seq<char>, Seq<char>>> {
    cs.map_values(|c: AdminConfig| c@)
}

/// One configuration applied to `m`: each guild role, in order, whose name the
/// configuration lists maps that name's emoji to the role's id.
pub open spec fn apply_config(
    m: Map<Seq<char>, u64>,
    roles: Seq<(Seq<char>, u64)>,
    cfg: Map<Seq<char>, Seq<char>>,
) -> Map<Seq<char>, u64>
    decreases roles.len(),
{
    if roles.len() == 0 {
        m
    } else {
        let prev = apply_config(m, roles.drop_last(), cfg);
        let r = roles.last();
        if cfg.contains_key(r.0) {
            prev.insert(cfg[r.0], r.1)
        } else {
            prev
        }
    }
}

/// All configurations applied to `m` in scan order, later ones overwriting
/// earlier ones on a shared emoji.
pub open spec fn apply_configs(
    m: Map<Seq<char>, u64>,
    roles: Seq<(Seq<char>, u64)>,
    cfgs: Seq<Map<Seq<char>, Seq<char>>>,
) -> Map<Seq<char>, u64>
    decreases cfgs.len(),
{
    if cfgs.len() == 0 {
        m
    } else {
        apply_config(apply_configs(m, roles, cfgs.drop_last()), roles, cfgs.last())
    }
}

impl AdminConfig {
    /// The emoji listed for role `name`, or `None` if it is not listed.
    pub fn emoji_for(&self, name: &String) -> (r: Option<String>)
        ensures
            r matches Some(e) ==> self@.contains_key(name@) && e@ == self@[name@],
            r is None ==> !self@.contains_key(name@),
    {
        let ghost s = text_pairs(self.reaction_roles@);
        let mut i: usize = self.reaction_roles.len();
        while i > 0
            invariant
                i <= self.reaction_roles@.len(),
                s == text_pairs(self.reaction_roles@),
                forall|j: int| i <= j < s.len() ==> s[j].0 != name@,
            decreases i,
        {
            i -= 1;
            if self.reaction_roles[i].0 == *name {
                proof {
                    lemma_last_wins_at(s, name@, i as int);
                }
                return Some(self.reaction_roles[i].1.clone());
            }
        }
        proof {
            lemma_last_wins_absent(s, name@);
        }
        None
    }
}

/// Configuration `cfg` lists role `name` with emoji `e`.
pub open spec fn gives(cfg: Map<Seq<char>, Seq<char>>, name: Seq<char>, e: Seq<char>) -> bool {
    cfg.contains_key(name) && cfg[name] == e
}

proof fn lemma_config_keeps(
    m: Map<Seq<char>, u64>,
    roles: Seq<(Seq<char>, u64)>,
    cfg: Map<Seq<char>, Seq<char>>,
    e: Seq<char>,
)
    requires
        m.contains_key(e),
    ensures
        apply_config(m, roles, cfg).contains_key(e),
    decreases roles.len(),
{
    if roles.len() > 0 {
        lemma_config_keeps(m, roles.drop_last(), cfg, e);
    }
}

proof fn lemma_config_absent(
    m: Map<Seq<char>, u64>,
    roles: Seq<(Seq<char>, u64)>,
    cfg: Map<Seq<char>, Seq<char>>,
    e: Seq<char>,
)
    requires
        forall|r: int| 0 <= r < roles.len() ==> !gives(cfg, #[trigger] roles[r].0, e),
    ensures
        apply_config(m, roles, cfg).contains_key(e) == m.contains_key(e),
        m.contains_key(e) ==> apply_config(m, roles, cfg)[e] == m[e],
    decreases roles.len(),
{
    if roles.len() > 0 {
        let t = roles.drop_last();
        assert forall|r: int| 0 <= r < t.len() implies !gives(cfg, #[trigger] t[r].0, e) by {
            assert(t[r] == roles[r]);
        }
        lemma_config_absent(m, t, cfg, e);
        assert(!gives(cfg, roles[roles.len() - 1].0, e));
    }
}

proof fn lemma_config_hit(
    m: Map<Seq<char>, u64>,
    roles: Seq<(Seq<char>, u64)>,
    cfg: Map<Seq<char>, Seq<char>>,
    e: Seq<char>,
    r: int,
)
    requires
        0 <= r < roles.len(),
        gives(cfg, roles[r].0, e),
        forall|k: int| r < k < roles.len() ==> !gives(cfg, #[trigger] roles[k].0, e),
    ensures
        apply_config(m, roles, cfg).contains_key(e),
        apply_config(m, roles, cfg)[e] == roles[r].1,
    decreases roles.len(),
{
    let t = roles.drop_last();
    if r < roles.len() - 1 {
        assert forall|k: int| r < k < t.len() implies !gives(cfg, #[trigger] t[k].0, e) by {
            assert(t[k] == roles[k]);
        }
        lemma_config_hit(m, t, cfg, e, r);
        assert(!gives(cfg, roles[roles.len() - 1].0, e));
    }
}

proof fn lemma_config_hit_any(
    m: Map<Seq<char>, u64>,
    roles: Seq<(Seq<char>, u64)>,
    cfg: Map<Seq<char>, Seq<char>>,
    e: Seq<char>,
    r: int,
)
    requires
        0 <= r < roles.len(),
        gives(cfg, roles[r].0, e),
    ensures
        apply_config(m, roles, cfg).contains_key(e),
    decreases roles.len(),
{
    let t = roles.drop_last();
    if r < roles.len() - 1 {
        assert(t[r] == roles[r]);
        lemma_config_hit_any(m, t, cfg, e, r);
    }
}

proof fn lemma_configs_absent(
    m: Map<Seq<char>, u64>,
    roles: Seq<(Seq<char>, u64)>,
    cfgs: Seq<Map<Seq<char>, Seq<char>>>,
    e: Seq<char>,
)
    requires
        forall|c: int, r: int|
            0 <= c < cfgs.len() && 0 <= r < roles.len() ==> !gives(#[trigger] cfgs[c], #[trigger] roles[r].0, e),
    ensures
        apply_configs(m, roles, cfgs).contains_key(e) == m.contains_key(e),
        m.contains_key(e) ==> apply_configs(m, roles, cfgs)[e] == m[e],
    decreases cfgs.len(),
{
    if cfgs.len() > 0 {
        let t = cfgs.drop_last();
        assert forall|c: int, r: int| 0 <= c < t.len() && 0 <= r < roles.len() implies !gives(
            #[trigger] t[c],
            #[trigger] roles[r].0,
            e,
        ) by {
            assert(t[c] == cfgs[c]);
        }
        lemma_configs_absent(m, roles, t, e);
        let last = cfgs[cfgs.len() - 1];
        assert forall|r: int| 0 <= r < roles.len() implies !gives(last, #[trigger] roles[r].0, e) by {}
        lemma_config_absent(apply_configs(m, roles, t), roles, last, e);
    }
}

/// Population from empty holds exactly the emoji that some scanned
/// configuration gives to the name of some guild role.
pub proof fn population_holds_matched_emoji(
    roles: Seq<(Seq<char>, u64)>,
    cfgs: Seq<Map<Seq<char>, Seq<char>>>,
    e: Seq<char>,
)
    ensures
        apply_configs(Map::empty(), roles, cfgs).contains_key(e) <==> exists|c: int, r: int|
            0 <= c < cfgs.len() && 0 <= r < roles.len() && gives(#[trigger] cfgs[c], #[trigger] roles[r].0, e),
    decreases cfgs.len(),
{
    let found = exists|c: int, r: int|
        0 <= c < cfgs.len() && 0 <= r < roles.len() && gives(#[trigger] cfgs[c], #[trigger] roles[r].0, e);
    if !found {
        lemma_configs_absent(Map::empty(), roles, cfgs, e);
    } else if cfgs.len() > 0 {
        let (c, r) = choose|c: int, r: int|
            0 <= c < cfgs.len() && 0 <= r < roles.len() && gives(#[trigger] cfgs[c], #[trigger] roles[r].0, e);
        let t = cfgs.drop_last();
        if c == cfgs.len() - 1 {
            lemma_config_hit_any(apply_configs(Map::empty(), roles, t), roles, cfgs.last(), e, r);
        } else {
            assert(t[c] == cfgs[c]);
            population_holds_matched_emoji(roles, t, e);
            lemma_config_keeps(apply_configs(Map::empty(), roles, t), roles, cfgs.last(), e);
        }
    }
}

/// The role an emoji gets is the one from the last pair, in scan order
/// (configurations, then guild roles), that gives it: later configurations
/// overwrite earlier ones.
pub proof fn population_last_pair_wins(
    roles: Seq<(Seq<char>, u64)>,
    cfgs: Seq<Map<Seq<char>, Seq<char>>>,
    e: Seq<char>,
    c: int,
    r: int,
)
    requires
        0 <= c < cfgs.len(),
        0 <= r < roles.len(),
        gives(cfgs[c], roles[r].0, e),
        forall|k: int| r < k < roles.len() ==> !gives(cfgs[c], #[trigger] roles[k].0, e),
        forall|d: int, k: int|
            c < d < cfgs.len() && 0 <= k < roles.len() ==> !gives(#[trigger] cfgs[d], #[trigger] roles[k].0, e),
    ensures
        apply_configs(Map::empty(), roles, cfgs).contains_key(e),
        apply_configs(Map::empty(), roles, cfgs)[e] == roles[r].1,
    decreases cfgs.len(),
{
    let t = cfgs.drop_last();
    if c == cfgs.len() - 1 {
        lemma_config_hit(apply_configs(Map::empty(), roles, t), roles, cfgs.last(), e, r);
    } else {
        assert(t[c] == cfgs[c]);
        assert forall|d: int, k: int| c < d < t.len() && 0 <= k < roles.len() implies !gives(
            #[trigger] t[d],
            #[trigger] roles[k].0,
            e,
        ) by {
            assert(t[d] == cfgs[d]);
        }
        population_last_pair_wins(roles, t, e, c, r);
        let last = cfgs[cfgs.len() - 1];
        assert forall|k: int| 0 <= k < roles.len() implies !gives(last, #[trigger] roles[k].0, e) by {}
        lemma_config_absent(apply_configs(Map::empty(), roles, t), roles, last, e);
    }
}

/// Positions, in scan order, of the messages written by `admin`: the ones
/// read as configuration.
pub open spec fn admin_positions(authors: Seq<u64>, admin: u64) -> Seq<usize>
    decreases authors.len(),
{
    if authors.len() == 0 {
        Seq::empty()
    } else {
        let prev = admin_positions(authors.drop_last(), admin);
        if authors.last() == admin {
            prev.push((authors.len() - 1) as usize)
        } else {
            prev
        }
    }
}

/// Picks, in scan order, the messages whose author is the administrator.
pub fn config_positions(authors: &Vec<u64>, admin: u64) -> (r: Vec<usize>)
    ensures
        r@ == admin_positions(authors@, admin),
{
    let mut r: Vec<usize> = Vec::new();
    let mut i: usize = 0;
    while i < authors.len()
        invariant
            i <= authors@.len(),
            r@ == admin_positions(authors@.take(i as int), admin),
        decreases authors@.len() - i,
    {
        assert(authors@.take(i + 1).drop_last() =~= authors@.take(i as int));
        if authors[i] == admin {
            r.push(i);
        }
        i += 1;
    }
    assert(authors@.take(i as int) =~= authors@);
    r
}

/// The emoji-to-role table: one entry per emoji.
pub struct RoleMap {
    entries: Vec<(String, u64)>,
}

impl View for RoleMap {
    type V = Map<Seq<char>, u64>;

    closed spec fn view(&self) -> Map<Seq<char>, u64> {
        last_wins(id_pairs(self.entries@))
    }
}

impl RoleMap {
    /// No emoji appears in two entries.
    pub closed spec fn wf(&self) -> bool {
        forall|i: int, j: int|
            0 <= i < self.entries@.len() && 0 <= j < self.entries@.len() && i != j
                ==> self.entries@[i].0@ != self.entries@[j].0@
    }

    pub fn new() -> (r: RoleMap)
        ensures
            r.wf(),
            r@ == Map::<Seq<char>, u64>::empty(),
    {
        RoleMap { entries: Vec::new() }
    }

    /// Position of the entry for `emoji`, if any.
    fn position(&self, emoji: &String) -> (r: Option<usize>)
        requires
            self.wf(),
        ensures
            r matches Some(i) ==> i < self.entries@.len() && self.entries@[i as int].0@ == emoji@,
            r is None ==> forall|i: int| 0 <= i < self.entries@.len() ==> self.entries@[i].0@ != emoji@,
    {
        let mut i: usize = 0;
        while i < self.entries.len()
            invariant
                i <= self.entries@.len(),
                forall|j: int| 0 <= j < i ==> self.entries@[j].0@ != emoji@,
            decreases self.entries@.len() - i,
        {
            if self.entries[i].0 == *emoji {
                return Some(i);
            }
            i += 1;
        }
        None
    }

    /// The role mapped to `emoji`, or `None` if it has none.
    pub fn get(&self, emoji: &String) -> (r: Option<u64>)
        requires
            self.wf(),
        ensures
            r == (if self@.contains_key(emoji@) { Some(self@[emoji@]) } else { None::<u64> }),
    {
        let ghost s = id_pairs(self.entries@);
        match self.position(emoji) {
            Some(i) => {
                proof {
                    lemma_last_wins_at(s, emoji@, i as int);
                }
                Some(self.entries[i].1)
            },
            None => {
                proof {
                    lemma_last_wins_absent(s, emoji@);
                }
                None
            },
        }
    }

    /// Maps `emoji` to `role`, replacing any role it had.
    pub fn insert(&mut self, emoji: String, role: u64)
        requires
            old(self).wf(),
        ensures
            final(self).wf(),
            final(self)@ == old(self)@.insert(emoji@, role),
    {
        let ghost s = id_pairs(self.entries@);
        match self.position(&emoji) {
            Some(i) => {
                proof {
                    lemma_last_wins_update(s, i as int, role);
                }
                self.entries.set(i, (emoji, role));
                assert(id_pairs(self.entries@) =~= s.update(i as int, (s[i as int].0, role)));
            },
            None => {
                self.entries.push((emoji, role));
                assert(id_pairs(self.entries@).drop_last() =~= s);
            },
        }
    }

    /// Applies one configuration: for each guild role in order whose name the
    /// configuration lists, maps that name's emoji to the role.
    pub fn apply(&mut self, roles: &Vec<GuildRole>, config: &AdminConfig)
        requires
            old(self).wf(),
        ensures
            final(self).wf(),
            final(self)@ == apply_config(old(self)@, role_pairs(roles@), config@),
    {
        let ghost start = self@;
        let ghost rs = role_pairs(roles@);
        let mut i: usize = 0;
        while i < roles.len()
            invariant
                i <= roles@.len(),
                rs == role_pairs(roles@),
                self.wf(),
                self@ == apply_config(start, rs.take(i as int), config@),
            decreases roles@.len() - i,
        {
            assert(rs.take(i + 1).drop_last() =~= rs.take(i as int));
            if let Some(e) = config.emoji_for(&roles[i].name) {
                self.insert(e, roles[i].id);
            }
            i += 1;
        }
        assert(rs.take(i as int) =~= rs);
    }

    /// The table that the configurations give, read in scan order, when
    /// started from empty.
    pub fn from_configs(roles: &Vec<GuildRole>, configs: &Vec<AdminConfig>) -> (r: RoleMap)
        ensures
            r.wf(),
            r@ == apply_configs(Map::empty(), role_pairs(roles@), config_views(configs@)),
    {
        let ghost cs = config_views(configs@);
        let mut m = RoleMap::new();
        let mut i: usize = 0;
        while i < configs.len()
            invariant
                i <= configs@.len(),
                cs == config_views(configs@),
                m.wf(),
                m@ == apply_configs(Map::empty(), role_pairs(roles@), cs.take(i as int)),
            decreases configs@.len() - i,
        {
            assert(cs.take(i + 1).drop_last() =~= cs.take(i as int));
            m.apply(roles, &configs[i]);
            i += 1;
        }
        assert(cs.take(i as int) =~= cs);
        m
    }

    pub fn len(&self) -> (r: usize)
        requires
            self.wf(),
        ensures
            r == self@.len(),
    {
        proof {
            lemma_distinct_len(id_pairs(self.entries@));
        }
        self.entries.len()
    }
}

proof fn lemma_distinct_len(s: Seq<(Seq<char>, u64)>)
    requires
        forall|i: int, j: int| 0 <= i < s.len() && 0 <= j < s.len() && i != j ==> s[i].0 != s[j].0,
    ensures
        last_wins(s).dom().finite(),
        last_wins(s).len() == s.len(),
    decreases s.len(),
{
    if s.len() > 0 {
        let t = s.drop_last();
        lemma_distinct_len(t);
        lemma_last_wins_absent(t, s.last().0);
    }
}

} // verus!
