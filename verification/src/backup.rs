use vstd::prelude::*;

use crate::config::{clone_strings, game_views, Config, Game, SaveLocation};
use crate::errors::Error;
use crate::expand::{expand_str, spec_expand, Expansion};
use crate::paths::{anonymize, join_path, join_under, opt_view, spec_anonymize};
use crate::scope::Scope;
use crate::strutil::push_char;
use crate::sys::{system_config_dir, system_home_dir};

verus! {

/// Is `n` one of the names the library reserves for system variables?
pub open spec fn reserved_name(n: Seq<char>) -> bool {
    n == "home"@ || n == "config"@
}

/// The name of the first user variable that shadows a reserved name.
pub open spec fn find_reserved(vars: Seq<crate::config::Variable>) -> Option<Seq<char>>
    decreases vars.len(),
{
    if vars.len() == 0 {
        None
    } else if reserved_name(vars[0].name@) {
        Some(vars[0].name@)
    } else {
        find_reserved(vars.skip(1))
    }
}

/// The scope holding only the system variables that could be determined.
pub open spec fn sys_scope(home: Option<Seq<char>>, cfg: Option<Seq<char>>) -> Map<
    Seq<char>,
    Seq<char>,
> {
    let m0 = Map::<Seq<char>, Seq<char>>::empty();
    let m1 = match home {
        Some(h) => m0.insert("home"@, h),
        None => m0,
    };
    match cfg {
        Some(c) => m1.insert("config"@, c),
        None => m1,
    }
}

/// Resolve the user variables in document order: each value is expanded
/// against the scope gathered so far, then bound to its name.
pub open spec fn resolve_vars(
    vars: Seq<crate::config::Variable>,
    m: Map<Seq<char>, Seq<char>>,
) -> Result<Map<Seq<char>, Seq<char>>, Expansion>
    decreases vars.len(),
{
    if vars.len() == 0 {
        Ok(m)
    } else {
        match spec_expand(vars[0].value@, m) {
            Expansion::Expanded(v) => resolve_vars(vars.skip(1), m.insert(vars[0].name@, v)),
            e => Err(e),
        }
    }
}

/// Is any game of `games` named `name`?
pub open spec fn has_game(games: Seq<Game>, name: Seq<char>) -> bool {
    exists|i: int| 0 <= i && i < games.len() && #[trigger] games[i].name@ == name
}

/// Is `i` the first index of `games` whose entry is named `name`?
pub open spec fn is_first_game(games: Seq<Game>, name: Seq<char>, i: int) -> bool {
    &&& 0 <= i && i < games.len()
    &&& games[i].name@ == name
    &&& forall|j: int| 0 <= j && j < i ==> #[trigger] games[j].name@ != name
}

/// At most one index is the first of a given name.
pub proof fn lemma_first_game_unique(games: Seq<Game>, name: Seq<char>, i: int, j: int)
    requires
        is_first_game(games, name, i),
        is_first_game(games, name, j),
    ensures
        i == j,
{
}

/// The prepared copy work for one save location: the expanded host path,
/// the matching directory inside the backup tree, and the glob patterns
/// (empty means the whole tree under the host path).
#[derive(Debug)]
pub struct SavePlan {
    pub source: String,
    pub backup_dir: String,
    pub patterns: Vec<String>,
}

/// The prepared copy work for one game.
#[derive(Debug)]
pub struct GamePlan {
    pub game_dir: String,
    pub saves: Vec<SavePlan>,
}

/// Outcome tally of a bulk operation.
#[derive(Clone, Copy, PartialEq, Eq, Structural, Debug)]
pub struct BulkSummary {
    pub succeeded: usize,
    pub failed: usize,
}

/// How many of `s` are `true`.
pub open spec fn count_true(s: Seq<bool>) -> nat
    decreases s.len(),
{
    if s.len() == 0 {
        0
    } else {
        count_true(s.drop_last()) + if s.last() {
            1nat
        } else {
            0nat
        }
    }
}

proof fn lemma_count_true_le(s: Seq<bool>)
    ensures
        count_true(s) <= s.len(),
    decreases s.len(),
{
    if s.len() > 0 {
        lemma_count_true_le(s.drop_last());
    }
}

/// The loaded configuration together with its resolved variable scope,
/// the backup tree root, and the home directory the path anonymizer uses.
#[derive(Debug)]
pub struct GameBackup {
    pub config: Config,
    pub variables: Scope,
    pub backup_root: String,
    pub home_dir: Option<String>,
}

impl GameBackup {
    /// The directory of one game inside the backup tree.
    pub open spec fn spec_game_dir(self, name: Seq<char>) -> Seq<char> {
        self.backup_root@ + seq!['/'] + name
    }

    /// Does `sp` carry exactly the copy work of save location `loc`?
    pub open spec fn save_plan_matches(
        self,
        game_dir: Seq<char>,
        loc: SaveLocation,
        sp: SavePlan,
    ) -> bool {
        &&& spec_expand(loc.path@, self.variables@) == Expansion::Expanded(sp.source@)
        &&& sp.backup_dir@ == join_under(
            game_dir,
            spec_anonymize(sp.source@, opt_view(self.home_dir)),
        )
        &&& sp.patterns@ == loc.files@
    }

    /// Does `plan` carry exactly the copy work of game `g`?
    pub open spec fn plan_matches(self, g: Game, plan: GamePlan) -> bool {
        &&& plan.game_dir@ == self.spec_game_dir(g.name@)
        &&& plan.saves@.len() == g.saves@.len()
        &&& forall|j: int|
            0 <= j && j < g.saves@.len() ==> self.save_plan_matches(
                plan.game_dir@,
                g.saves@[j],
                #[trigger] plan.saves@[j],
            )
    }

    /// Is `j` the first save location of `g` whose path fails to expand,
    /// with `e` the failure?
    pub open spec fn first_save_failure(self, g: Game, j: int, e: Expansion) -> bool {
        &&& 0 <= j && j < g.saves@.len()
        &&& spec_expand(g.saves@[j].path@, self.variables@) == e
        &&& forall|k: int|
            0 <= k && k < j ==> (#[trigger] spec_expand(
                g.saves@[k].path@,
                self.variables@,
            )) is Expanded
    }


    /// Build a `GameBackup` over the decoded configuration and the backup
    /// tree root, asking the platform for the home and configuration
    /// directories. Whatever those calls answer, the scope is resolved as
    /// `from_parts` states, with the answered home kept for the anonymizer;
    /// a configuration that resolves under every possible answer is
    /// accepted outright.
    pub fn new(config: Config, backup_root: String) -> (r: Result<GameBackup, Error>)
        ensures
            match r {
                Ok(gb) => {
                    &&& find_reserved(config.variables@) is None
                    &&& gb.config == config
                    &&& gb.backup_root == backup_root
                    &&& (exists|cd: Option<Seq<char>>|
                        resolve_vars(
                            config.variables@,
                            #[trigger] sys_scope(opt_view(gb.home_dir), cd),
                        ) == Ok::<Map<Seq<char>, Seq<char>>, Expansion>(gb.variables@))
                },
                Err(Error::ReservedVariableName(n)) => find_reserved(config.variables@) == Some(
                    n@,
                ),
                Err(Error::UndefinedVariable(n)) => find_reserved(config.variables@) is None && (
                exists|hd: Option<Seq<char>>, cd: Option<Seq<char>>|
                    resolve_vars(config.variables@, #[trigger] sys_scope(hd, cd)) == Err::<
                        Map<Seq<char>, Seq<char>>,
                        Expansion,
                    >(Expansion::Undefined(n@))),
                Err(Error::CircularVariableReference) => find_reserved(config.variables@) is None
                    && (exists|hd: Option<Seq<char>>, cd: Option<Seq<char>>|
                    resolve_vars(config.variables@, #[trigger] sys_scope(hd, cd)) == Err::<
                        Map<Seq<char>, Seq<char>>,
                        Expansion,
                    >(Expansion::Circular)),
                Err(_) => false,
            },
            (find_reserved(config.variables@) is None && (forall|
                hd: Option<Seq<char>>,
                cd: Option<Seq<char>>,
            |
                (#[trigger] resolve_vars(config.variables@, sys_scope(hd, cd))) is Ok)) ==> r is Ok,
    {
        let home = system_home_dir();
        let config_dir = system_config_dir();
        let ghost hdv = opt_view(home);
        let ghost cdv = opt_view(config_dir);
        let r = Self::from_parts(config, backup_root, home, config_dir);
        proof {
            assert(resolve_vars(config.variables@, sys_scope(hdv, cdv)) == resolve_vars(
                config.variables@,
                sys_scope(hdv, cdv),
            ));
            match &r {
                Ok(gb) => {
                    assert(resolve_vars(config.variables@, sys_scope(opt_view(gb.home_dir), cdv))
                        == Ok::<Map<Seq<char>, Seq<char>>, Expansion>(gb.variables@));
                },
                Err(e) => {
                    match e {
                        Error::UndefinedVariable(n) => {
                            assert(resolve_vars(config.variables@, sys_scope(hdv, cdv)) == Err::<
                                Map<Seq<char>, Seq<char>>,
                                Expansion,
                            >(Expansion::Undefined(n@)));
                        },
                        Error::CircularVariableReference => {
                            assert(resolve_vars(config.variables@, sys_scope(hdv, cdv)) == Err::<
                                Map<Seq<char>, Seq<char>>,
                                Expansion,
                            >(Expansion::Circular));
                        },
                        _ => {},
                    }
                },
            }
        }
        r
    }

    /// Assemble a `GameBackup` from a decoded configuration, the backup
    /// tree root, and the system-provided home and configuration
    /// directories. Rejects a configuration that shadows a reserved name,
    /// then resolves the user variables in document order.
    pub fn from_parts(
        config: Config,
        backup_root: String,
        home: Option<String>,
        config_dir: Option<String>,
    ) -> (r: Result<GameBackup, Error>)
        ensures
            match r {
                Ok(gb) => {
                    &&& find_reserved(config.variables@) is None
                    &&& resolve_vars(
                        config.variables@,
                        sys_scope(opt_view(home), opt_view(config_dir)),
                    ) == Ok::<Map<Seq<char>, Seq<char>>, Expansion>(gb.variables@)
                    &&& gb.config == config
                    &&& gb.backup_root == backup_root
                    &&& gb.home_dir == home
                },
                Err(Error::ReservedVariableName(n)) => find_reserved(config.variables@) == Some(
                    n@,
                ),
                Err(Error::UndefinedVariable(n)) => find_reserved(config.variables@) is None
                    && resolve_vars(
                    config.variables@,
                    sys_scope(opt_view(home), opt_view(config_dir)),
                ) == Err::<Map<Seq<char>, Seq<char>>, Expansion>(Expansion::Undefined(n@)),
                Err(Error::CircularVariableReference) => find_reserved(config.variables@) is None
                    && resolve_vars(
                    config.variables@,
                    sys_scope(opt_view(home), opt_view(config_dir)),
                ) == Err::<Map<Seq<char>, Seq<char>>, Expansion>(Expansion::Circular),
                Err(_) => false,
            },
    {
        let mut scope = Scope::new();
        match &home {
            Some(h) => {
                scope.insert(String::from_str("home"), h.clone());
            },
            None => {},
        }
        match &config_dir {
            Some(c) => {
                scope.insert(String::from_str("config"), c.clone());
            },
            None => {},
        }
        proof {
            assert(scope@ =~= sys_scope(opt_view(home), opt_view(config_dir)));
        }
        let hk = String::from_str("home");
        let ck = String::from_str("config");
        proof {
            assert(config.variables@.skip(0) =~= config.variables@);
        }
        let n = config.variables.len();
        let mut i: usize = 0;
        while i < n
            invariant
                i <= n,
                n == config.variables@.len(),
                hk@ == "home"@,
                ck@ == "config"@,
                find_reserved(config.variables@) == find_reserved(
                    config.variables@.skip(i as int),
                ),
            decreases n - i,
        {
            proof {
                assert(config.variables@.skip(i as int)[0] == config.variables@[i as int]);
                assert(config.variables@.skip(i as int).skip(1) =~= config.variables@.skip(
                    i + 1,
                ));
            }
            if config.variables[i].name == hk || config.variables[i].name == ck {
                return Err(Error::ReservedVariableName(config.variables[i].name.clone()));
            }
            i = i + 1;
        }
        proof {
            assert(config.variables@.skip(n as int) =~= Seq::<crate::config::Variable>::empty());
        }
        let ghost sys = scope@;
        proof {
            assert(config.variables@.skip(0) =~= config.variables@);
        }
        let mut i: usize = 0;
        while i < n
            invariant
                i <= n,
                n == config.variables@.len(),
                find_reserved(config.variables@) is None,
                sys == sys_scope(opt_view(home), opt_view(config_dir)),
                resolve_vars(config.variables@, sys) == resolve_vars(
                    config.variables@.skip(i as int),
                    scope@,
                ),
            decreases n - i,
        {
            proof {
                assert(config.variables@.skip(i as int)[0] == config.variables@[i as int]);
                assert(config.variables@.skip(i as int).skip(1) =~= config.variables@.skip(
                    i + 1,
                ));
            }
            match expand_str(config.variables[i].value.as_str(), &scope) {
                Ok(v) => {
                    scope.insert(config.variables[i].name.clone(), v);
                },
                Err(e) => {
                    return Err(e);
                },
            }
            i = i + 1;
        }
        proof {
            assert(config.variables@.skip(n as int) =~= Seq::<crate::config::Variable>::empty());
        }
        Ok(GameBackup { config, variables: scope, backup_root, home_dir: home })
    }

    /// Expand `${name}` references in `value` against the resolved scope,
    /// exactly as save-location paths are expanded.
    pub fn expand_variables(&self, value: &str) -> (r: Result<String, Error>)
        ensures
            match r {
                Ok(out) => spec_expand(value@, self.variables@) == Expansion::Expanded(out@),
                Err(Error::UndefinedVariable(n)) => spec_expand(value@, self.variables@)
                    == Expansion::Undefined(n@),
                Err(Error::CircularVariableReference) => spec_expand(value@, self.variables@)
                    == Expansion::Circular,
                Err(_) => false,
            },
    {
        expand_str(value, &self.variables)
    }

    /// The enabled games, in document order: exactly the entries of the
    /// configuration whose `enabled` flag is set, kept in sequence.
    pub fn list_games(&self) -> (r: Vec<Game>)
        ensures
            game_views(r@) == game_views(self.config.games@).filter(
                |g: crate::config::GameView| g.enabled,
            ),
    {
        let mut out: Vec<Game> = Vec::new();
        let n = self.config.games.len();
        let mut i: usize = 0;
        proof {
            reveal(Seq::filter);
            assert(game_views(self.config.games@.take(0)) =~= Seq::<
                crate::config::GameView,
            >::empty());
        }
        while i < n
            invariant
                i <= n,
                n == self.config.games@.len(),
                game_views(out@) == game_views(self.config.games@.take(i as int)).filter(
                    |g: crate::config::GameView| g.enabled,
                ),
            decreases n - i,
        {
            proof {
                reveal(Seq::filter);
                assert(game_views(self.config.games@.take(i as int + 1)).drop_last()
                    =~= game_views(self.config.games@.take(i as int)));
                assert(game_views(self.config.games@.take(i as int + 1)).last()
                    == self.config.games@[i as int]@);
            }
            if self.config.games[i].enabled {
                let g = self.config.games[i].clone();
                out.push(g);
                proof {
                    assert(game_views(out@) =~= game_views(self.config.games@.take(i as int)).filter(
                        |g: crate::config::GameView| g.enabled,
                    ).push(self.config.games@[i as int]@));
                }
            } else {
                proof {
                    assert(game_views(out@) =~= game_views(
                        self.config.games@.take(i as int + 1),
                    ).filter(|g: crate::config::GameView| g.enabled));
                }
            }
            i = i + 1;
        }
        proof {
            assert(self.config.games@.take(n as int) =~= self.config.games@);
        }
        out
    }

    /// The path of `game_name`'s directory inside the backup tree.
    pub fn game_backup_dir(&self, game_name: &str) -> (r: String)
        ensures
            r@ == self.spec_game_dir(game_name@),
    {
        let mut d = self.backup_root.clone();
        push_char(&mut d, '/');
        d.append(game_name);
        proof {
            assert(d@ =~= self.spec_game_dir(game_name@));
        }
        d
    }

    fn find_game_index(&self, name: &str) -> (r: Option<usize>)
        ensures
            match r {
                Some(i) => is_first_game(self.config.games@, name@, i as int),
                None => !has_game(self.config.games@, name@),
            },
    {
        let key = String::from_str(name);
        let n = self.config.games.len();
        let mut i: usize = 0;
        while i < n
            invariant
                i <= n,
                n == self.config.games@.len(),
                key@ == name@,
                forall|j: int| 0 <= j && j < i ==> #[trigger] self.config.games@[j].name@ != name@,
            decreases n - i,
        {
            if self.config.games[i].name == key {
                return Some(i);
            }
            i = i + 1;
        }
        None
    }

    /// The copy work for one game, in both directions. Backup copies each
    /// save location's host tree into its backup directory; restore copies
    /// the backup directory back. The same mapping serves both, which is
    /// what makes the two symmetric. A disabled game is inert: whenever
    /// the first game of the requested name is disabled, the result is
    /// `Ok(None)` — skipped, with no copy work and no error.
    pub fn plan_game(&self, game_name: &str) -> (r: Result<Option<GamePlan>, Error>)
        ensures
            (exists|i: int|
                #[trigger] is_first_game(self.config.games@, game_name@, i)
                    && !self.config.games@[i].enabled) ==> (r matches Ok(None)),
            match r {
                Ok(None) => exists|i: int|
                    #[trigger] is_first_game(self.config.games@, game_name@, i)
                        && !self.config.games@[i].enabled,
                Ok(Some(plan)) => exists|i: int|
                    #[trigger] is_first_game(self.config.games@, game_name@, i)
                        && self.config.games@[i].enabled && self.plan_matches(
                        self.config.games@[i],
                        plan,
                    ),
                Err(Error::GameNotFound(n)) => !has_game(self.config.games@, game_name@) && n@
                    == game_name@,
                Err(Error::UndefinedVariable(nm)) => exists|i: int, j: int|
                    is_first_game(self.config.games@, game_name@, i)
                        && self.config.games@[i].enabled && #[trigger] self.first_save_failure(
                        self.config.games@[i],
                        j,
                        Expansion::Undefined(nm@),
                    ),
                Err(Error::CircularVariableReference) => exists|i: int, j: int|
                    is_first_game(self.config.games@, game_name@, i)
                        && self.config.games@[i].enabled && #[trigger] self.first_save_failure(
                        self.config.games@[i],
                        j,
                        Expansion::Circular,
                    ),
                Err(_) => false,
            },
    {
        match self.find_game_index(game_name) {
            None => Err(Error::GameNotFound(String::from_str(game_name))),
            Some(idx) => {
                let game = &self.config.games[idx];
                if !game.enabled {
                    return Ok(None);
                }
                let game_dir = self.game_backup_dir(game.name.as_str());
                let mut saves: Vec<SavePlan> = Vec::new();
                let n = game.saves.len();
                let mut j: usize = 0;
                while j < n
                    invariant
                        j <= n,
                        n == game.saves@.len(),
                        saves@.len() == j,
                        is_first_game(self.config.games@, game_name@, idx as int),
                        self.config.games@[idx as int].enabled,
                        *game == self.config.games@[idx as int],
                        game_dir@ == self.spec_game_dir(game.name@),
                        forall|k: int|
                            0 <= k && k < j ==> (#[trigger] spec_expand(
                                game.saves@[k].path@,
                                self.variables@,
                            )) is Expanded,
                        forall|k: int|
                            0 <= k && k < j ==> self.save_plan_matches(
                                game_dir@,
                                game.saves@[k],
                                #[trigger] saves@[k],
                            ),
                    decreases n - j,
                {
                    match expand_str(game.saves[j].path.as_str(), &self.variables) {
                        Ok(source) => {
                            let comps = anonymize(source.as_str(), &self.home_dir);
                            let backup_dir = join_path(game_dir.as_str(), &comps);
                            let patterns = clone_strings(&game.saves[j].files);
                            saves.push(SavePlan { source, backup_dir, patterns });
                        },
                        Err(e) => {
                            proof {
                                match &e {
                                    Error::UndefinedVariable(nm) => {
                                        assert(self.first_save_failure(
                                            self.config.games@[idx as int],
                                            j as int,
                                            Expansion::Undefined(nm@),
                                        ));
                                    },
                                    Error::CircularVariableReference => {
                                        assert(self.first_save_failure(
                                            self.config.games@[idx as int],
                                            j as int,
                                            Expansion::Circular,
                                        ));
                                    },
                                    _ => {},
                                }
                            }
                            return Err(e);
                        },
                    }
                    j = j + 1;
                }
                Ok(Some(GamePlan { game_dir, saves }))
            },
        }
    }

    /// Tally a bulk backup over one outcome per enabled game, in document
    /// order: success exactly when no game failed, else the aggregate
    /// failure carrying the number of failed games. Every enabled game is
    /// accounted for: successes and failures together cover them all.
    pub fn backup_all_games(&self, outcomes: &Vec<bool>) -> (r: Result<BulkSummary, Error>)
        requires
            outcomes@.len() == game_views(self.config.games@).filter(
                |g: crate::config::GameView| g.enabled,
            ).len(),
        ensures
            match r {
                Ok(s) => s.succeeded == count_true(outcomes@) && s.failed == 0 && s.succeeded
                    == game_views(self.config.games@).filter(
                    |g: crate::config::GameView| g.enabled,
                ).len(),
                Err(Error::AggregateFailure(f)) => f + count_true(outcomes@) == game_views(
                    self.config.games@,
                ).filter(|g: crate::config::GameView| g.enabled).len() && f > 0,
                Err(_) => false,
            },
    {
        let t = tally(outcomes);
        if t.1 == 0 {
            Ok(BulkSummary { succeeded: t.0, failed: t.1 })
        } else {
            Err(Error::AggregateFailure(t.1))
        }
    }

    /// Tally a bulk restore, exactly as `backup_all_games` does.
    pub fn restore_all_games(&self, outcomes: &Vec<bool>) -> (r: Result<BulkSummary, Error>)
        requires
            outcomes@.len() == game_views(self.config.games@).filter(
                |g: crate::config::GameView| g.enabled,
            ).len(),
        ensures
            match r {
                Ok(s) => s.succeeded == count_true(outcomes@) && s.failed == 0 && s.succeeded
                    == game_views(self.config.games@).filter(
                    |g: crate::config::GameView| g.enabled,
                ).len(),
                Err(Error::AggregateFailure(f)) => f + count_true(outcomes@) == game_views(
                    self.config.games@,
                ).filter(|g: crate::config::GameView| g.enabled).len() && f > 0,
                Err(_) => false,
            },
    {
        let t = tally(outcomes);
        if t.1 == 0 {
            Ok(BulkSummary { succeeded: t.0, failed: t.1 })
        } else {
            Err(Error::AggregateFailure(t.1))
        }
    }
}

fn tally(outcomes: &Vec<bool>) -> (t: (usize, usize))
    ensures
        t.0 == count_true(outcomes@),
        t.0 + t.1 == outcomes@.len(),
{
    let n = outcomes.len();
    let mut succ: usize = 0;
    let mut i: usize = 0;
    while i < n
        invariant
            i <= n,
            n == outcomes@.len(),
            succ == count_true(outcomes@.take(i as int)),
            succ <= i,
        decreases n - i,
    {
        proof {
            assert(outcomes@.take(i as int + 1).drop_last() =~= outcomes@.take(i as int));
            assert(outcomes@.take(i as int + 1).last() == outcomes@[i as int]);
        }
        if outcomes[i] {
            succ = succ + 1;
        }
        i = i + 1;
    }
    proof {
        assert(outcomes@.take(n as int) =~= outcomes@);
    }
    (succ, n - succ)
}

/// Law: a bulk run over one outcome per enabled game accounts for every
/// game: the successes and the failures together are exactly the enabled
/// games, none is dropped and none counted twice.
pub proof fn lemma_bulk_accounting(outcomes: Seq<bool>)
    ensures
        count_true(outcomes) <= outcomes.len(),
        count_true(outcomes) + (outcomes.len() - count_true(outcomes)) == outcomes.len(),
{
    lemma_count_true_le(outcomes);
}

} // verus!
