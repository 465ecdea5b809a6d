//! The environment of a task: layers of dotenv files and variables, each laid over the ones
//! before it.
use crate::ordered::{append_copies, has_key, keys_unique, law_extend_later_wins, map_extend, map_extend_copies, map_get, Duplicate};
use vstd::prelude::*;

verus! {

/// One layer of an environment: dotenv files, then variables laid over them.
#[derive(Debug)]
pub struct EnvConfig {
    /// Paths of the dotenv files, in order
    pub env_files: Vec<String>,
    pub env: Vec<(String, String)>,
}

/// What a layer holds.
pub struct EnvConfigView {
    pub env_files: Seq<Seq<char>>,
    pub env: Seq<(Seq<char>, Seq<char>)>,
}

impl DeepView for EnvConfig {
    type V = EnvConfigView;

    open spec fn deep_view(&self) -> EnvConfigView {
        EnvConfigView { env_files: self.env_files.deep_view(), env: self.env.deep_view() }
    }
}

impl Duplicate for EnvConfig {
    fn duplicate(&self) -> (r: EnvConfig) {
        EnvConfig { env_files: self.env_files.duplicate(), env: self.env.duplicate() }
    }
}

/// The layers of an environment, the later over the earlier.
#[derive(Debug)]
pub struct Env {
    pub configs: Vec<EnvConfig>,
}

impl DeepView for Env {
    type V = Seq<EnvConfigView>;

    open spec fn deep_view(&self) -> Seq<EnvConfigView> {
        self.configs.deep_view()
    }
}

impl Duplicate for Env {
    fn duplicate(&self) -> (r: Env) {
        Env { configs: self.configs.duplicate() }
    }
}

/// The lists of pairs of `s`, one after the other.
pub open spec fn joined<A>(s: Seq<Seq<A>>) -> Seq<A>
    decreases s.len(),
{
    if s.len() == 0 {
        Seq::empty()
    } else {
        joined(s.drop_last()) + s.last()
    }
}

/// The variables of the layers in the order they are laid: for each layer, those its files
/// hold (`loaded`, file by file) and then its own.
pub open spec fn env_pairs(
    configs: Seq<EnvConfigView>,
    loaded: Seq<Seq<Seq<(Seq<char>, Seq<char>)>>>,
) -> Seq<(Seq<char>, Seq<char>)>
    decreases configs.len(),
{
    if configs.len() == 0 {
        Seq::empty()
    } else {
        env_pairs(configs.drop_last(), loaded.drop_last()) + joined(loaded.last()) + configs.last().env
    }
}

/// The layer of `env_files` and `env`.
pub open spec fn env_layer(env_files: Seq<Seq<char>>, env: Seq<(Seq<char>, Seq<char>)>) -> EnvConfigView {
    EnvConfigView { env_files, env }
}

impl Env {
    /// No layer.
    pub fn new() -> (r: Env)
        ensures
            r.deep_view() == Seq::<EnvConfigView>::empty(),
    {
        let r = Env { configs: Vec::new() };
        assert(r.deep_view() =~= Seq::<EnvConfigView>::empty());
        r
    }

    /// These layers with the layer of `env_files` and `env` over them.
    pub fn with(&self, env_files: &Vec<String>, env: &Vec<(String, String)>) -> (r: Env)
        ensures
            r.deep_view() == self.deep_view().push(env_layer(env_files.deep_view(), env.deep_view())),
    {
        let mut configs = self.configs.duplicate();
        let ghost before = configs.deep_view();
        configs.push(EnvConfig { env_files: env_files.duplicate(), env: env.duplicate() });
        let r = Env { configs };
        assert(r.deep_view() =~= before.push(env_layer(env_files.deep_view(), env.deep_view())));
        r
    }

    /// Whether `loaded` holds, for each layer, what each of its files holds.
    pub open spec fn fits(&self, loaded: Seq<Seq<Seq<(Seq<char>, Seq<char>)>>>) -> bool {
        &&& loaded.len() == self.configs.len()
        &&& forall|i: int| 0 <= i < loaded.len() ==> #[trigger] loaded[i].len() == self.configs@[i].env_files.len()
    }

    /// The environment the layers give, the variables of each file given in `loaded` (nothing
    /// for a file that cannot be read): each variable takes the value laid last, the files of
    /// a layer in order and then its own variables, layer after layer.
    pub fn load(&self, loaded: &Vec<Vec<Vec<(String, String)>>>) -> (r: Vec<(String, String)>)
        requires
            self.fits(loaded.deep_view()),
        ensures
            r.deep_view() == map_extend(Seq::empty(), env_pairs(self.deep_view(), loaded.deep_view())),
    {
        let ghost cv = self.deep_view();
        let ghost lv = loaded.deep_view();
        let mut all: Vec<(String, String)> = Vec::new();
        let mut i: usize = 0;
        while i < self.configs.len()
            invariant
                i <= self.configs.len(),
                cv == self.deep_view(),
                lv == loaded.deep_view(),
                self.fits(lv),
                all.deep_view() == env_pairs(cv.take(i as int), lv.take(i as int)),
            decreases self.configs.len() - i,
        {
            let ghost start = all.deep_view();
            let mut j: usize = 0;
            assert(lv[i as int].len() == self.configs@[i as int].env_files.len());
            while j < loaded[i].len()
                invariant
                    i < loaded.len(),
                    j <= loaded[i as int].len(),
                    lv == loaded.deep_view(),
                    all.deep_view() == start + joined(lv[i as int].take(j as int)),
                decreases loaded[i as int].len() - j,
            {
                append_copies(&mut all, &loaded[i][j]);
                proof {
                    let t = lv[i as int].take(j + 1);
                    assert(t.drop_last() =~= lv[i as int].take(j as int));
                    assert(t.last() == lv[i as int][j as int]);
                    assert(all.deep_view() =~= start + joined(lv[i as int].take(j + 1)));
                }
                j = j + 1;
            }
            assert(lv[i as int].take(lv[i as int].len() as int) =~= lv[i as int]);
            append_copies(&mut all, &self.configs[i].env);
            proof {
                assert(cv.take(i + 1).drop_last() =~= cv.take(i as int));
                assert(lv.take(i + 1).drop_last() =~= lv.take(i as int));
                assert(cv.take(i + 1).last() == cv[i as int]);
                assert(lv.take(i + 1).last() == lv[i as int]);
                assert(all.deep_view() =~= env_pairs(cv.take(i + 1), lv.take(i + 1)));
            }
            i = i + 1;
        }
        assert(cv.take(cv.len() as int) =~= cv);
        assert(lv.take(lv.len() as int) =~= lv);
        let mut r: Vec<(String, String)> = Vec::new();
        assert(r.deep_view() =~= Seq::<(Seq<char>, Seq<char>)>::empty());
        map_extend_copies(&mut r, &all);
        r
    }
}

/// Laying `a` then `b` over a map is laying `a + b` over it.
pub proof fn lemma_extend_concat<W>(m: Seq<(Seq<char>, W)>, a: Seq<(Seq<char>, W)>, b: Seq<(Seq<char>, W)>)
    ensures
        map_extend(m, a + b) == map_extend(map_extend(m, a), b),
    decreases b.len(),
{
    if b.len() == 0 {
        assert(a + b =~= a);
    } else {
        lemma_extend_concat(m, a, b.drop_last());
        assert((a + b).drop_last() =~= a + b.drop_last());
        assert((a + b).last() == b.last());
    }
}

/// The variables of the top layer win: a variable it sets has its value, whatever the dotenv
/// files and the layers under it say.
pub proof fn law_top_layer_wins(
    configs: Seq<EnvConfigView>,
    loaded: Seq<Seq<Seq<(Seq<char>, Seq<char>)>>>,
    k: Seq<char>,
)
    requires
        configs.len() > 0,
        keys_unique(configs.last().env),
        has_key(configs.last().env, k),
    ensures
        map_get(map_extend(Seq::empty(), env_pairs(configs, loaded)), k) == map_get(configs.last().env, k),
{
    let under = env_pairs(configs.drop_last(), loaded.drop_last()) + joined(loaded.last());
    assert(env_pairs(configs, loaded) == under + configs.last().env);
    lemma_extend_concat(Seq::empty(), under, configs.last().env);
    law_extend_later_wins(map_extend(Seq::empty(), under), configs.last().env, k);
}

} // verus!
