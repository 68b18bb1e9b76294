use vstd::prelude::*;

verus! {

/// Whether a file is still being loaded.
#[derive(Clone, Copy, Debug, PartialEq, Eq, Structural)]
pub enum FileLoadState {
    Loading,
    Finished,
}

/// How a file that is asked for relates to the files asked for before.
#[derive(Clone, Copy, Debug, PartialEq, Eq, Structural)]
pub enum FileDependency {
    Acyclic,
    Recursive,
    Redundant,
}

impl FileDependency {
    pub fn is_recursive(&self) -> (r: bool)
        ensures
            r == (*self == FileDependency::Recursive),
    {
        *self == FileDependency::Recursive
    }
}

/// The files that were asked for, in the order in which they were first asked
/// for, each with its load state and its contents.
pub struct FileManager {
    filenames: Vec<String>,
    load_states: Vec<FileLoadState>,
    contents: Vec<String>,
}

/// The files as the contracts see them.
pub struct FileManagerView {
    pub names: Seq<Seq<char>>,
    pub states: Seq<FileLoadState>,
    pub contents: Seq<Seq<char>>,
}

impl View for FileManager {
    type V = FileManagerView;

    closed spec fn view(&self) -> FileManagerView {
        FileManagerView {
            names: self.filenames@.map_values(|s: String| s@),
            states: self.load_states@,
            contents: self.contents@.map_values(|s: String| s@),
        }
    }
}

/// The first place from `from` on at which `name` stands.
pub open spec fn place_of_name(names: Seq<Seq<char>>, name: Seq<char>, from: nat) -> Option<nat>
    decreases names.len() - from,
{
    if from >= names.len() {
        None
    } else if names[from as int] == name {
        Some(from)
    } else {
        place_of_name(names, name, from + 1)
    }
}

/// The last of the first `n` files that is still being loaded.
pub open spec fn last_loading(states: Seq<FileLoadState>, n: nat) -> Option<nat>
    decreases n,
{
    if n == 0 {
        None
    } else if states[n - 1] == FileLoadState::Loading {
        Some((n - 1) as nat)
    } else {
        last_loading(states, (n - 1) as nat)
    }
}

impl FileManagerView {
    /// Every file has a name, a state and contents.
    pub open spec fn wf(self) -> bool {
        self.names.len() == self.states.len() && self.names.len() == self.contents.len()
    }

    /// The file that is being processed: the last that is still being
    /// loaded.
    pub open spec fn current(self) -> Option<nat> {
        last_loading(self.states, self.states.len())
    }

    /// How the file `name` relates to the files asked for before.
    pub open spec fn dependency(self, name: Seq<char>) -> FileDependency {
        match place_of_name(self.names, name, 0) {
            Some(file) => if self.states[file as int] == FileLoadState::Loading {
                FileDependency::Recursive
            } else {
                FileDependency::Redundant
            },
            None => FileDependency::Acyclic,
        }
    }

    /// The files after `name` was asked for: a file that was not asked for
    /// before is put behind the others, loading and with empty contents.
    pub open spec fn started(self, name: Seq<char>) -> FileManagerView {
        match place_of_name(self.names, name, 0) {
            Some(_) => self,
            None => FileManagerView {
                names: self.names.push(name),
                states: self.states.push(FileLoadState::Loading),
                contents: self.contents.push(Seq::empty()),
            },
        }
    }
}

impl FileManager {
    pub fn new() -> (r: Self)
        ensures
            r@.wf(),
            r@.names.len() == 0,
    {
        Self { filenames: Vec::new(), load_states: Vec::new(), contents: Vec::new() }
    }

    /// Notes the start of processing of the file with the path `filepath`
    /// and takes its contents.
    /// Returns:
    /// - Acyclic: when loading this file is ok
    /// - Recursive: when this file is currently being loaded
    /// - Redundant: when this file has already been loaded
    ///
    /// The contents become those of the file that is being processed after
    /// the call, if there is one.
    pub fn start(&mut self, filepath: String, contents: String) -> (r: FileDependency)
        requires
            old(self)@.wf(),
        ensures
            final(self)@.wf(),
            r == old(self)@.dependency(filepath@),
            final(self)@.names == old(self)@.started(filepath@).names,
            final(self)@.states == old(self)@.started(filepath@).states,
            final(self)@.contents == (match old(self)@.started(filepath@).current() {
                Some(file) => old(self)@.started(filepath@).contents.update(
                    file as int,
                    contents@,
                ),
                None => old(self)@.started(filepath@).contents,
            }),
    {
        let dependency = self._start(filepath);
        if self.current_file_index().is_some() {
            self.load_file_contents(contents);
        }
        dependency
    }

    /// Notes the start of loading file and returns its dependency on other files.
    /// Does not load contents of the file.
    pub fn _start(&mut self, filepath: String) -> (r: FileDependency)
        requires
            old(self)@.wf(),
        ensures
            final(self)@.wf(),
            r == old(self)@.dependency(filepath@),
            final(self)@ == old(self)@.started(filepath@),
    {
        let mut i: usize = 0;
        while i < self.filenames.len()
            invariant
                i <= self.filenames.len(),
                *self == *old(self),
                self@.wf(),
                place_of_name(self@.names, filepath@, 0) == place_of_name(
                    self@.names,
                    filepath@,
                    i as nat,
                ),
            decreases self.filenames.len() - i,
        {
            assert(self@.names[i as int] == self.filenames@[i as int]@);
            if self.filenames[i] == filepath {
                match self.load_states[i] {
                    FileLoadState::Loading => return FileDependency::Recursive,
                    FileLoadState::Finished => return FileDependency::Redundant,
                }
            }
            i += 1;
        }
        let ghost before = self@;
        self.filenames.push(filepath);
        self.load_states.push(FileLoadState::Loading);
        self.contents.push(String::new());
        assert(self@.names =~= before.names.push(filepath@));
        assert(self@.contents =~= before.contents.push(Seq::empty()));
        FileDependency::Acyclic
    }

    /// Makes `contents` the contents of the file that is being processed.
    pub fn load_file_contents(&mut self, contents: String)
        requires
            old(self)@.wf(),
            old(self)@.current() is Some,
        ensures
            final(self)@.wf(),
            final(self)@.names == old(self)@.names,
            final(self)@.states == old(self)@.states,
            final(self)@.contents == old(self)@.contents.update(
                old(self)@.current()->Some_0 as int,
                contents@,
            ),
    {
        let ghost before = self@;
        match self.current_file_index() {
            Some(file) => {
                proof {
                    lemma_last_loading_bounded(self@.states, self@.states.len());
                }
                self.contents[file] = contents;
                assert(self@.contents =~= before.contents.update(file as int, contents@));
            },
            None => {},
        }
    }

    /// Notes the finish of loading a file
    pub fn finish_file(&mut self)
        requires
            old(self)@.wf(),
            old(self)@.current() is Some,
        ensures
            final(self)@.wf(),
            final(self)@.names == old(self)@.names,
            final(self)@.contents == old(self)@.contents,
            final(self)@.states == old(self)@.states.update(
                old(self)@.current()->Some_0 as int,
                FileLoadState::Finished,
            ),
    {
        match self.current_file_index() {
            Some(file) => {
                proof {
                    lemma_last_loading_bounded(self@.states, self@.states.len());
                }
                self.load_states[file] = FileLoadState::Finished;
            },
            None => {},
        }
    }

    /// Returns index of a currently processed file
    pub fn current_file_index(&self) -> (r: Option<usize>)
        ensures
            match r {
                Some(file) => self@.current() == Some(file as nat),
                None => self@.current() is None,
            },
    {
        let mut n: usize = self.load_states.len();
        while n > 0
            invariant
                n <= self.load_states.len(),
                self@.current() == last_loading(self@.states, n as nat),
            decreases n,
        {
            if self.load_states[n - 1] == FileLoadState::Loading {
                return Some(n - 1);
            }
            n -= 1;
        }
        None
    }

    /// Returns contents of a currently processed file
    pub fn current_file_contents(&self) -> (r: Option<&str>)
        requires
            self@.wf(),
        ensures
            match r {
                Some(text) => self@.current() is Some && text@ == self@.contents[self@.current()->Some_0 as int],
                None => self@.current() is None,
            },
    {
        match self.current_file_index() {
            Some(file) => {
                proof {
                    lemma_last_loading_bounded(self@.states, self@.states.len());
                }
                assert(self@.contents[file as int] == self.contents@[file as int]@);
                Some(self.contents[file].as_str())
            },
            None => None,
        }
    }

    /// Returns the path of currently processed file.
    pub fn get_current_path(&self) -> (r: Option<&String>)
        requires
            self@.wf(),
        ensures
            match r {
                Some(path) => self@.current() is Some && path@ == self@.names[self@.current()->Some_0 as int],
                None => self@.current() is None,
            },
    {
        match self.current_file_index() {
            Some(file) => {
                proof {
                    lemma_last_loading_bounded(self@.states, self@.states.len());
                }
                assert(self@.names[file as int] == self.filenames@[file as int]@);
                Some(&self.filenames[file])
            },
            None => None,
        }
    }

    /// Returns the name of currently processed file if there is any.
    pub fn current_file(&self) -> (r: Option<&str>)
        requires
            self@.wf(),
        ensures
            match r {
                Some(name) => self@.current() is Some && name@ == self@.names[self@.current()->Some_0 as int],
                None => self@.current() is None,
            },
    {
        match self.get_current_path() {
            Some(path) => Some(path.as_str()),
            None => None,
        }
    }

    /// The names of the files, in the order in which they were asked for.
    pub fn filenames(&self) -> (r: &Vec<String>)
        ensures
            r@.map_values(|s: String| s@) == self@.names,
    {
        &self.filenames
    }

    /// The load states of the files.
    pub fn load_states(&self) -> (r: &Vec<FileLoadState>)
        ensures
            r@ == self@.states,
    {
        &self.load_states
    }
}

/// The file that is being processed is one of the files, and it is loading.
pub proof fn lemma_last_loading_bounded(states: Seq<FileLoadState>, n: nat)
    requires
        n <= states.len(),
    ensures
        match last_loading(states, n) {
            Some(file) => file < n && states[file as int] == FileLoadState::Loading,
            None => forall|k: int| 0 <= k < n ==> states[k] != FileLoadState::Loading,
        },
    decreases n,
{
    if n > 0 {
        lemma_last_loading_bounded(states, (n - 1) as nat);
    }
}

/// While files are being processed, the one processed is the last that was
/// started and not finished: finishing it makes the one started before it
/// current again.
pub proof fn lemma_finish_returns_to_previous(states: Seq<FileLoadState>)
    requires
        last_loading(states, states.len()) is Some,
    ensures
        ({
            let file = last_loading(states, states.len())->Some_0;
            last_loading(states.update(file as int, FileLoadState::Finished), states.len())
                == last_loading(states, file)
        }),
{
    let file = last_loading(states, states.len())->Some_0;
    lemma_last_loading_bounded(states, states.len());
    let after = states.update(file as int, FileLoadState::Finished);
    lemma_last_loading_skips(states, after, file, states.len());
}

/// Where the states agree before `file` and none from `file` on is loading
/// in `after`, the last loading file of `after` is the last before `file`.
proof fn lemma_last_loading_skips(
    states: Seq<FileLoadState>,
    after: Seq<FileLoadState>,
    file: nat,
    n: nat,
)
    requires
        file < states.len(),
        file <= n <= states.len(),
        after == states.update(file as int, FileLoadState::Finished),
        last_loading(states, states.len()) == Some(file),
    ensures
        last_loading(after, n) == last_loading(states, file),
    decreases n,
{
    lemma_last_loading_bounded(states, states.len());
    if n > file {
        lemma_last_loading_skips(states, after, file, (n - 1) as nat);
        if n - 1 > file {
            lemma_last_loading_tail(states, file, n, states.len());
        }
    } else {
        lemma_last_loading_same(states, after, file);
    }
}

/// Two lists of states that agree on their first `n` entries have the same
/// last loading file among them.
proof fn lemma_last_loading_same(a: Seq<FileLoadState>, b: Seq<FileLoadState>, n: nat)
    requires
        n <= a.len(),
        n <= b.len(),
        forall|k: int| 0 <= k < n ==> a[k] == b[k],
    ensures
        last_loading(a, n) == last_loading(b, n),
    decreases n,
{
    if n > 0 {
        lemma_last_loading_same(a, b, (n - 1) as nat);
    }
}

/// Behind the last loading file no file is loading.
proof fn lemma_last_loading_tail(states: Seq<FileLoadState>, file: nat, k: nat, n: nat)
    requires
        file + 1 < k <= n <= states.len(),
        last_loading(states, n) == Some(file),
    ensures
        states[k - 1] != FileLoadState::Loading,
    decreases n,
{
    if n > k {
        lemma_last_loading_tail(states, file, k, (n - 1) as nat);
    }
}

} // verus!
