use vstd::prelude::*;

verus! {

/// One user-defined variable of the configuration document.
#[derive(Debug)]
pub struct Variable {
    pub name: String,
    pub value: String,
}

/// One save location of a game: a path that may hold `${...}` references,
/// and glob patterns relative to it (empty means everything under it).
#[derive(Debug)]
pub struct SaveLocation {
    pub path: String,
    pub files: Vec<String>,
}

/// One game entry of the configuration document.
#[derive(Debug)]
pub struct Game {
    pub name: String,
    pub enabled: bool,
    pub saves: Vec<SaveLocation>,
}

/// The decoded configuration document: variable definitions in document
/// order, and the game entries.
#[derive(Debug)]
pub struct Config {
    pub variables: Vec<Variable>,
    pub games: Vec<Game>,
}

/// The mathematical content of a save location.
#[verifier::ext_equal]
pub struct SaveLocationView {
    pub path: Seq<char>,
    pub files: Seq<Seq<char>>,
}

/// The mathematical content of a game entry.
#[verifier::ext_equal]
pub struct GameView {
    pub name: Seq<char>,
    pub enabled: bool,
    pub saves: Seq<SaveLocationView>,
}

impl View for SaveLocation {
    type V = SaveLocationView;

    open spec fn view(&self) -> SaveLocationView {
        SaveLocationView { path: self.path@, files: self.files.deep_view() }
    }
}

impl View for Game {
    type V = GameView;

    open spec fn view(&self) -> GameView {
        GameView {
            name: self.name@,
            enabled: self.enabled,
            saves: Seq::new(self.saves@.len(), |i: int| self.saves@[i]@),
        }
    }
}

/// The content of a sequence of game entries.
pub open spec fn game_views(s: Seq<Game>) -> Seq<GameView> {
    s.map_values(|g: Game| g@)
}

/// A game entry without an `enabled` field is enabled.
pub fn default_enabled() -> (r: bool)
    ensures
        r,
{
    true
}

impl Clone for Variable {
    fn clone(&self) -> (r: Self)
        ensures
            r == *self,
    {
        Variable { name: self.name.clone(), value: self.value.clone() }
    }
}

/// Copy a vector of strings element for element.
pub fn clone_strings(v: &Vec<String>) -> (r: Vec<String>)
    ensures
        r@ == v@,
{
    let mut out: Vec<String> = Vec::new();
    let n = v.len();
    let mut i: usize = 0;
    while i < n
        invariant
            i <= n,
            n == v@.len(),
            out@ == v@.take(i as int),
        decreases n - i,
    {
        out.push(v[i].clone());
        proof {
            assert(v@.take(i as int + 1) =~= v@.take(i as int).push(v@[i as int]));
        }
        i = i + 1;
    }
    proof {
        assert(v@.take(n as int) =~= v@);
    }
    out
}

impl Clone for SaveLocation {
    fn clone(&self) -> (r: Self)
        ensures
            r@ == self@,
    {
        let r = SaveLocation { path: self.path.clone(), files: clone_strings(&self.files) };
        proof {
            assert(r.files.deep_view() =~= self.files.deep_view());
            assert(r@ =~= self@);
        }
        r
    }
}

impl Clone for Game {
    fn clone(&self) -> (r: Self)
        ensures
            r@ == self@,
    {
        let mut saves: Vec<SaveLocation> = Vec::new();
        let n = self.saves.len();
        let mut i: usize = 0;
        while i < n
            invariant
                i <= n,
                n == self.saves@.len(),
                saves@.len() == i,
                forall|j: int| 0 <= j && j < i ==> (#[trigger] saves@[j])@ == self.saves@[j]@,
            decreases n - i,
        {
            saves.push(self.saves[i].clone());
            i = i + 1;
        }
        let r = Game { name: self.name.clone(), enabled: self.enabled, saves };
        proof {
            assert(r@.saves =~= self@.saves);
            assert(r@ =~= self@);
        }
        r
    }
}

} // verus!
