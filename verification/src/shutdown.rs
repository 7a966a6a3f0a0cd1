//! The tree of shutdown tokens: every token has subscribers, which are told
//! to stop when the token or one above it is shut down, and a shutdown has
//! come to its end when no subscriber of the token or of one below it is
//! left.

use vstd::prelude::*;

verus! {

/// The tree as the contracts see it: for each token the token above it, if
/// there is one, whether it was shut down, and the number of its subscribers
/// that are alive.
pub struct TreeView {
    pub parents: Seq<Option<usize>>,
    pub shut: Seq<bool>,
    pub live: Seq<usize>,
}

impl TreeView {
    /// The number of tokens.
    pub open spec fn len(self) -> nat {
        self.parents.len()
    }

    /// Every token stands behind the token above it.
    pub open spec fn wf(self) -> bool {
        &&& self.shut.len() == self.parents.len()
        &&& self.live.len() == self.parents.len()
        &&& forall|c: int|
            0 <= c < self.parents.len() ==> (#[trigger] self.parents[c] matches Some(p) ==> p < c)
    }

    /// Token `c` is token `a` or stands below it.
    pub open spec fn descends(self, c: int, a: int) -> bool
        decreases c,
    {
        c == a || (0 <= c < self.parents.len() && match self.parents[c] {
            Some(p) => p < c && self.descends(p as int, a),
            None => false,
        })
    }

    /// The subscribers of token `c` are told to stop: the token or one above
    /// it was shut down.
    pub open spec fn stopped(self, c: int) -> bool
        decreases c,
    {
        0 <= c < self.parents.len() && (self.shut[c] || match self.parents[c] {
            Some(p) => p < c && self.stopped(p as int),
            None => false,
        })
    }

    /// No subscriber of token `a` or of a token below it is alive.
    pub open spec fn exited(self, a: int) -> bool {
        forall|c: int| 0 <= c < self.parents.len() && self.descends(c, a) ==> self.live[c] == 0
    }
}

/// The subscribers of a token are told to stop exactly when the token or one
/// above it was shut down.
pub proof fn lemma_stopped(v: TreeView, c: int)
    requires
        v.wf(),
        0 <= c < v.len(),
    ensures
        v.stopped(c) <==> exists|a: int| 0 <= a < v.len() && v.descends(c, a) && v.shut[a],
    decreases c,
{
    if v.shut[c] {
        assert(v.descends(c, c) && v.shut[c]);
    }
    match v.parents[c] {
        Some(p) => {
            lemma_stopped(v, p as int);
            if v.stopped(p as int) {
                let a = choose|a: int| 0 <= a < v.len() && v.descends(p as int, a) && v.shut[a];
                assert(v.descends(c, a));
            }
            if exists|a: int| 0 <= a < v.len() && v.descends(c, a) && v.shut[a] {
                let a = choose|a: int| 0 <= a < v.len() && v.descends(c, a) && v.shut[a];
                if a != c {
                    assert(v.descends(p as int, a));
                }
            }
        },
        None => {
            if exists|a: int| 0 <= a < v.len() && v.descends(c, a) && v.shut[a] {
                let a = choose|a: int| 0 <= a < v.len() && v.descends(c, a) && v.shut[a];
                assert(a == c);
            }
        },
    }
}

/// Shutting a token down tells the subscribers of the token and of every
/// token below it to stop, and no others.
pub proof fn lemma_shutdown_reaches(v: TreeView, node: int, c: int)
    requires
        v.wf(),
        0 <= node < v.len(),
        0 <= c < v.len(),
    ensures
        (TreeView { shut: v.shut.update(node, true), ..v }).stopped(c) <==> v.stopped(c)
            || v.descends(c, node),
    decreases c,
{
    let after = TreeView { shut: v.shut.update(node, true), ..v };
    match v.parents[c] {
        Some(p) => {
            lemma_shutdown_reaches(v, node, p as int);
        },
        None => {},
    }
}

/// When a shutdown has come to its end, so has that of every token below.
pub proof fn lemma_exited_below(v: TreeView, a: int, b: int)
    requires
        v.wf(),
        0 <= a < v.len(),
        0 <= b < v.len(),
        v.descends(b, a),
        v.exited(a),
    ensures
        v.exited(b),
{
    assert forall|c: int| 0 <= c < v.len() && v.descends(c, b) implies v.live[c] == 0 by {
        lemma_descends_transitive(v, c, b, a);
    }
}

/// What stands below a token stands below every token above it.
pub proof fn lemma_descends_transitive(v: TreeView, c: int, b: int, a: int)
    requires
        v.wf(),
        0 <= c < v.len(),
        v.descends(c, b),
        v.descends(b, a),
    ensures
        v.descends(c, a),
    decreases c,
{
    if c != b {
        match v.parents[c] {
            Some(p) => {
                lemma_descends_transitive(v, p as int, b, a);
            },
            None => {},
        }
    }
}

/// A tree of shutdown tokens.
pub struct TokenTree {
    parents: Vec<Option<usize>>,
    shut: Vec<bool>,
    live: Vec<usize>,
}

impl View for TokenTree {
    type V = TreeView;

    closed spec fn view(&self) -> TreeView {
        TreeView { parents: self.parents@, shut: self.shut@, live: self.live@ }
    }
}

impl TokenTree {
    /// A tree without tokens.
    pub fn new() -> (tree: TokenTree)
        ensures
            tree@.wf(),
            tree@.len() == 0,
    {
        TokenTree { parents: Vec::new(), shut: Vec::new(), live: Vec::new() }
    }

    /// The number of tokens.
    pub fn len(&self) -> (n: usize)
        ensures
            n == self@.len(),
    {
        self.parents.len()
    }

    /// A new token below `parent`, or at the top where there is none. It is
    /// not shut down and has no subscriber.
    pub fn add(&mut self, parent: Option<usize>) -> (token: usize)
        requires
            old(self)@.wf(),
            parent matches Some(p) ==> p < old(self)@.len(),
        ensures
            final(self)@.wf(),
            token == old(self)@.len(),
            final(self)@ == (TreeView {
                parents: old(self)@.parents.push(parent),
                shut: old(self)@.shut.push(false),
                live: old(self)@.live.push(0),
            }),
    {
        let token = self.parents.len();
        self.parents.push(parent);
        self.shut.push(false);
        self.live.push(0);
        token
    }

    /// The number of subscribers of a token that are alive.
    pub fn subscribers(&self, token: usize) -> (n: usize)
        requires
            self@.wf(),
            token < self@.len(),
        ensures
            n == self@.live[token as int],
    {
        self.live[token]
    }

    /// Notes one more subscriber of a token.
    pub fn subscribe(&mut self, token: usize)
        requires
            old(self)@.wf(),
            token < old(self)@.len(),
            old(self)@.live[token as int] < usize::MAX,
        ensures
            final(self)@.wf(),
            final(self)@ == (TreeView {
                live: old(self)@.live.update(
                    token as int,
                    (old(self)@.live[token as int] + 1) as usize,
                ),
                ..old(self)@
            }),
    {
        let n = self.live[token];
        self.live[token] = n + 1;
    }

    /// Notes that a subscriber of a token is gone.
    pub fn release(&mut self, token: usize)
        requires
            old(self)@.wf(),
            token < old(self)@.len(),
            old(self)@.live[token as int] > 0,
        ensures
            final(self)@.wf(),
            final(self)@ == (TreeView {
                live: old(self)@.live.update(
                    token as int,
                    (old(self)@.live[token as int] - 1) as usize,
                ),
                ..old(self)@
            }),
    {
        let n = self.live[token];
        self.live[token] = n - 1;
    }

    /// Shuts a token down: the subscribers of the token and of every token
    /// below it are told to stop.
    pub fn shutdown(&mut self, token: usize)
        requires
            old(self)@.wf(),
            token < old(self)@.len(),
        ensures
            final(self)@.wf(),
            final(self)@ == (TreeView { shut: old(self)@.shut.update(token as int, true), ..old(self)@ }),
            forall|c: int|
                0 <= c < old(self)@.len() ==> (#[trigger] final(self)@.stopped(c) <==> old(self)@.stopped(c) || old(self)@.descends(c, token as int)),
    {
        self.shut[token] = true;
        proof {
            assert forall|c: int| 0 <= c < old(self)@.len() implies (#[trigger] self@.stopped(c)
                <==> old(self)@.stopped(c) || old(self)@.descends(c, token as int)) by {
                lemma_shutdown_reaches(old(self)@, token as int, c);
            }
        }
    }

    /// Whether token `c` is token `a` or stands below it.
    pub fn descends(&self, c: usize, a: usize) -> (r: bool)
        requires
            self@.wf(),
            c < self@.len(),
        ensures
            r == self@.descends(c as int, a as int),
    {
        let mut cur = c;
        loop
            invariant
                self@.wf(),
                cur < self@.len(),
                self@.descends(c as int, a as int) == self@.descends(cur as int, a as int),
            decreases cur,
        {
            if cur == a {
                return true;
            }
            match self.parents[cur] {
                Some(p) => {
                    cur = p;
                },
                None => {
                    return false;
                },
            }
        }
    }

    /// Whether the subscribers of a token are told to stop.
    pub fn is_stopped(&self, token: usize) -> (r: bool)
        requires
            self@.wf(),
            token < self@.len(),
        ensures
            r == self@.stopped(token as int),
    {
        let mut cur = token;
        loop
            invariant
                self@.wf(),
                cur < self@.len(),
                self@.stopped(token as int) == self@.stopped(cur as int),
            decreases cur,
        {
            if self.shut[cur] {
                return true;
            }
            match self.parents[cur] {
                Some(p) => {
                    cur = p;
                },
                None => {
                    return false;
                },
            }
        }
    }

    /// Whether the shutdown of a token has come to its end: whether no
    /// subscriber of the token or of a token below it is alive.
    pub fn has_exited(&self, token: usize) -> (r: bool)
        requires
            self@.wf(),
        ensures
            r == self@.exited(token as int),
    {
        let n = self.parents.len();
        let mut c: usize = 0;
        while c < n
            invariant
                self@.wf(),
                n == self@.len(),
                c <= n,
                forall|k: int| 0 <= k < c && self@.descends(k, token as int) ==> self@.live[k] == 0,
            decreases n - c,
        {
            if self.live[c] > 0 && self.descends(c, token) {
                return false;
            }
            c = c + 1;
        }
        true
    }
}

} // verus!
