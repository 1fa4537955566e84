//! The monitor-selection menu's state.
//!
//! The terminal itself — drawing, key events — is the caller's concern;
//! this module owns the menu's state and every decision it makes: which
//! monitor is highlighted, which are selected, which bitmap path has
//! been entered for which monitor, and when the menu is finished. Keys
//! arrive as plain values and each one maps to one state transition.

use vstd::prelude::*;

verus! {

/// Unicode whitespace, as `str::trim` removes it.
pub open spec fn is_space(c: char) -> bool {
    ||| c == ' '
    ||| ('\u{09}' <= c && c <= '\u{0d}')
    ||| c == '\u{85}'
    ||| c == '\u{a0}'
    ||| c == '\u{1680}'
    ||| ('\u{2000}' <= c && c <= '\u{200a}')
    ||| c == '\u{2028}'
    ||| c == '\u{2029}'
    ||| c == '\u{202f}'
    ||| c == '\u{205f}'
    ||| c == '\u{3000}'
}

/// Unicode whitespace test.
pub fn is_space_char(c: char) -> (r: bool)
    ensures
        r == is_space(c),
{
    c == ' ' || ('\u{09}' <= c && c <= '\u{0d}') || c == '\u{85}' || c == '\u{a0}' || c
        == '\u{1680}' || ('\u{2000}' <= c && c <= '\u{200a}') || c == '\u{2028}' || c == '\u{2029}'
        || c == '\u{202f}' || c == '\u{205f}' || c == '\u{3000}'
}

/// The text with leading and trailing whitespace removed.
pub open spec fn trimmed(s: Seq<char>) -> Seq<char>
    decreases s.len(),
{
    if s.len() == 0 {
        s
    } else if is_space(s[0]) {
        trimmed(s.skip(1))
    } else if is_space(s.last()) {
        trimmed(s.drop_last())
    } else {
        s
    }
}

/// A whitespace margin pins the trimmed text to the inner stretch.
proof fn lemma_trimmed_window(s: Seq<char>, i: int, j: int)
    requires
        0 <= i <= j <= s.len(),
        forall|k: int| 0 <= k < i ==> is_space(#[trigger] s[k]),
        forall|k: int| j <= k < s.len() ==> is_space(#[trigger] s[k]),
        i < j ==> !is_space(s[i]) && !is_space(s[j - 1]),
    ensures
        trimmed(s) =~= s.subrange(i, j),
    decreases s.len(),
{
    if i == j {
        lemma_trimmed_all_space(s);
    } else if i > 0 {
        lemma_trimmed_window(s.skip(1), i - 1, j - 1);
        assert(s.skip(1).subrange(i - 1, j - 1) =~= s.subrange(i, j));
    } else if j < s.len() {
        assert(s.drop_last() =~= s.subrange(0, s.len() - 1));
        lemma_trimmed_window(s.drop_last(), i, j);
        assert(s.drop_last().subrange(i, j) =~= s.subrange(i, j));
    } else {
        assert(s.subrange(0, s.len() as int) =~= s);
    }
}

/// All-whitespace text trims to nothing.
proof fn lemma_trimmed_all_space(s: Seq<char>)
    requires
        forall|k: int| 0 <= k < s.len() ==> is_space(#[trigger] s[k]),
    ensures
        trimmed(s) =~= Seq::<char>::empty(),
    decreases s.len(),
{
    if s.len() > 0 {
        lemma_trimmed_all_space(s.skip(1));
    }
}

/// The characters of `v` with the whitespace margin removed.
pub fn trim_chars(v: &Vec<char>) -> (r: Vec<char>)
    ensures
        r@ == trimmed(v@),
{
    let n = v.len();
    let mut i: usize = 0;
    while i < n && is_space_char(v[i])
        invariant
            i <= n,
            n == v@.len(),
            forall|k: int| 0 <= k < i ==> is_space(#[trigger] v@[k]),
        decreases n - i,
    {
        i += 1;
    }
    let mut j: usize = n;
    while j > i && is_space_char(v[j - 1])
        invariant
            i <= j <= n,
            n == v@.len(),
            i == n || !is_space(v@[i as int]),
            forall|k: int| 0 <= k < i ==> is_space(#[trigger] v@[k]),
            forall|k: int| j <= k < n ==> is_space(#[trigger] v@[k]),
        decreases j,
    {
        j -= 1;
    }
    let mut out: Vec<char> = Vec::new();
    let mut k: usize = i;
    while k < j
        invariant
            i <= k <= j <= n,
            n == v@.len(),
            forall|k2: int| 0 <= k2 < i ==> is_space(#[trigger] v@[k2]),
            forall|k2: int| j <= k2 < n ==> is_space(#[trigger] v@[k2]),
            i < j ==> !is_space(v@[i as int]) && !is_space(v@[j - 1]),
            out@ =~= v@.subrange(i as int, k as int),
        decreases j - k,
    {
        out.push(v[k]);
        k += 1;
    }
    proof {
        lemma_trimmed_window(v@, i as int, j as int);
    }
    out
}

/// What the menu is listening for.
pub enum InputMode {
    /// Arrow keys move the highlight; enter selects a monitor.
    Normal,
    /// Characters build a bitmap directory path for the selected
    /// monitor.
    PathInput,
}

/// One key, as the menu understands keys.
#[derive(Clone, Copy, Debug, PartialEq, Eq, Structural)]
pub enum KeyInput {
    Up,
    Down,
    Enter,
    Backspace,
    Escape,
    Character(char),
    Other,
}

/// What one key did to the menu.
#[derive(Clone, Copy, Debug, PartialEq, Eq, Structural)]
pub enum MenuStep {
    /// Keep listening.
    Continue,
    /// The menu is done; its paths are the result.
    Finished,
}

/// How `save_path` relates the menu before the call to the menu after
/// it: with no current monitor nothing changes; otherwise the trimmed
/// input is recorded under the current monitor (replacing any earlier
/// entry), that monitor leaves the selection, and either the next
/// selected monitor becomes current or — `done` — the menu returns to
/// normal mode with every selected monitor served.
pub open spec fn save_path_rel(pre: App, post: App, input: Seq<char>, done: bool) -> bool {
    match pre.current_monitor {
        None => post == pre && done == false,
        Some(m) => {
            let ps0 = pre.paths@;
            let ps1 = post.paths@;
            &&& (if has_path_for(ps0, m) {
                ps1.len() == ps0.len() && (forall|j: int|
                    0 <= j < ps0.len() && (#[trigger] ps0[j]).0 != m ==> ps1[j] == ps0[j]) && (
                forall|j: int|
                    0 <= j < ps0.len() && (#[trigger] ps0[j]).0 == m ==> ps1[j].0 == m
                        && ps1[j].1@ == trimmed(input))
            } else {
                ps1.len() == ps0.len() + 1 && ps1.take(ps0.len() as int) == ps0 && ps1.last().0
                    == m && ps1.last().1@ == trimmed(input)
            })
            &&& !has_selected(post.selected_indices@, m)
            &&& (forall|x: usize|
                has_selected(pre.selected_indices@, x) && x != m ==> has_selected(
                    post.selected_indices@,
                    x,
                ))
            &&& (if post.selected_indices@.len() > 0 {
                post.current_monitor == Some(post.selected_indices@[0]) && post.input_mode
                    == pre.input_mode && done == false
            } else {
                post.current_monitor is None && post.input_mode is Normal && done == true
            })
            &&& post.options == pre.options
            &&& post.highlighted_index == pre.highlighted_index
            &&& post.error_message == pre.error_message
        },
    }
}

/// The monitor-selection menu: a list of monitor descriptions, the
/// highlight, the monitors selected so far, and the bitmap directory
/// path entered for each.
pub struct App {
    pub input_mode: InputMode,
    pub options: Vec<String>,
    pub selected_indices: Vec<usize>,
    pub highlighted_index: usize,
    pub error_message: Option<String>,
    pub paths: Vec<(usize, Vec<char>)>,
    pub current_monitor: Option<usize>,
}

/// No monitor is listed twice.
pub open spec fn distinct_indices(xs: Seq<usize>) -> bool {
    forall|i: int, j: int| 0 <= i < j < xs.len() ==> xs[i] != xs[j]
}

/// Some entry carries this monitor's path.
pub open spec fn has_path_for(ps: Seq<(usize, Vec<char>)>, m: usize) -> bool {
    exists|j: int| 0 <= j < ps.len() && (#[trigger] ps[j]).0 == m
}

impl App {
    /// A menu in good standing: the highlight names an option when there
    /// are any, no monitor is selected twice, and no monitor has two
    /// path entries.
    pub open spec fn wf(self) -> bool {
        &&& self.options@.len() > 0 ==> self.highlighted_index < self.options@.len()
        &&& distinct_indices(self.selected_indices@)
        &&& forall|i: int, j: int|
            0 <= i < j < self.paths@.len() ==> (#[trigger] self.paths@[i]).0 != (
            #[trigger] self.paths@[j]).0
    }

    /// A fresh menu over these options: nothing selected, nothing
    /// entered, the first option highlighted.
    pub fn new(options: Vec<String>) -> (r: App)
        ensures
            r.wf(),
            r.input_mode is Normal,
            r.options == options,
            r.selected_indices@.len() == 0,
            r.highlighted_index == 0,
            r.error_message is None,
            r.paths@.len() == 0,
            r.current_monitor is None,
    {
        App {
            input_mode: InputMode::Normal,
            options,
            selected_indices: Vec::new(),
            highlighted_index: 0,
            error_message: None,
            paths: Vec::new(),
            current_monitor: None,
        }
    }

    /// Turn to path entry for the first selected monitor that still
    /// waits for a path; with none selected, nothing changes.
    pub fn start_path_input(&mut self)
        requires
            old(self).wf(),
        ensures
            final(self).wf(),
            old(self).selected_indices@.len() == 0 ==> *final(self) == *old(self),
            old(self).selected_indices@.len() > 0 ==> {
                &&& final(self).current_monitor == Some(old(self).selected_indices@[0])
                &&& final(self).input_mode is PathInput
                &&& final(self).options == old(self).options
                &&& final(self).selected_indices == old(self).selected_indices
                &&& final(self).highlighted_index == old(self).highlighted_index
                &&& final(self).error_message == old(self).error_message
                &&& final(self).paths == old(self).paths
            },
    {
        if self.selected_indices.len() > 0 {
            let monitor = self.selected_indices[0];
            self.current_monitor = Some(monitor);
            self.input_mode = InputMode::PathInput;
        }
    }

    /// Record `input`, trimmed, as the current monitor's bitmap path,
    /// drop that monitor from the selection, and move on to the next
    /// selected monitor; the answer says whether every selected monitor
    /// now has its path, which finishes the menu.
    pub fn save_path(&mut self, input: &Vec<char>) -> (done: bool)
        requires
            old(self).wf(),
        ensures
            final(self).wf(),
            save_path_rel(*old(self), *final(self), input@, done),
    {
        let m = match self.current_monitor {
            Some(m) => m,
            None => {
                return false;
            },
        };
        let value = trim_chars(input);
        // Record or replace this monitor's path.
        let np = self.paths.len();
        let mut pi: usize = 0;
        let mut found = false;
        while pi < np && !found
            invariant
                pi <= np,
                np == self.paths@.len(),
                !found ==> forall|j: int| 0 <= j < pi ==> (#[trigger] self.paths@[j]).0 != m,
                found ==> pi < np && self.paths@[pi as int].0 == m,
            decreases np - pi + (if found { 0int } else { 1int }),
        {
            if self.paths[pi].0 == m {
                found = true;
            } else {
                pi += 1;
            }
        }
        let ghost ps0 = self.paths@;
        if found {
            self.paths[pi] = (m, value);
            proof {
                assert(self.paths@ =~= ps0.update(pi as int, (m, self.paths@[pi as int].1)));
                assert(has_path_for(ps0, m));
            }
        } else {
            self.paths.push((m, value));
            proof {
                assert(!has_path_for(ps0, m)) by {
                    assert forall|j: int| 0 <= j < ps0.len() implies (#[trigger] ps0[j]).0
                        != m by {}
                }
                assert(self.paths@.take(ps0.len() as int) =~= ps0);
            }
        }
        // The monitor leaves the selection.
        let ns = self.selected_indices.len();
        let mut si: usize = 0;
        let mut sfound = false;
        while si < ns && !sfound
            invariant
                si <= ns,
                ns == self.selected_indices@.len(),
                !sfound ==> forall|j: int|
                    0 <= j < si ==> (#[trigger] self.selected_indices@[j]) != m,
                sfound ==> si < ns && self.selected_indices@[si as int] == m,
            decreases ns - si + (if sfound { 0int } else { 1int }),
        {
            if self.selected_indices[si] == m {
                sfound = true;
            } else {
                si += 1;
            }
        }
        let ghost ss0 = self.selected_indices@;
        if sfound {
            self.selected_indices.remove(si);
            proof {
                assert forall|j: int|
                    0 <= j < self.selected_indices@.len() implies (
                #[trigger] self.selected_indices@[j]) != m by {
                    if j < si {
                    } else {
                        assert(self.selected_indices@[j] == ss0[j + 1]);
                    }
                }
            }
        }
        proof {
            assert(!has_selected(self.selected_indices@, m));
            assert forall|x: usize|
                has_selected(ss0, x) && x != m implies has_selected(
                self.selected_indices@,
                x,
            ) by {
                let j = choose|j: int| 0 <= j < ss0.len() && ss0[j] == x;
                if sfound {
                    if j < si {
                        assert(self.selected_indices@[j] == x);
                    } else if j > si {
                        assert(self.selected_indices@[j - 1] == x);
                    }
                } else {
                    assert(self.selected_indices@[j] == x);
                }
            }
        }
        // Move on to the next selected monitor, or finish.
        if self.selected_indices.len() > 0 {
            let next = self.selected_indices[0];
            self.current_monitor = Some(next);
            false
        } else {
            self.input_mode = InputMode::Normal;
            self.current_monitor = None;
            true
        }
    }

    /// One key in the menu; `buffer` is the path being typed. In normal
    /// mode the arrows move the highlight with wraparound, enter selects
    /// the highlighted monitor and turns to path entry, and escape
    /// finishes the menu. In path entry, characters and backspace edit
    /// the buffer; enter with only whitespace raises the error message,
    /// enter with a path records it and either moves to the next
    /// selected monitor (clearing the buffer) or finishes; escape
    /// finishes. Every other key changes nothing.
    pub fn handle_key(&mut self, buffer: &mut Vec<char>, key: KeyInput) -> (step: MenuStep)
        requires
            old(self).wf(),
        ensures
            final(self).wf(),
            match old(self).input_mode {
                InputMode::Normal => match key {
                    KeyInput::Down => {
                        &&& *final(buffer) == *old(buffer)
                        &&& step is Continue
                        &&& (if old(self).options@.len() == 0 {
                            *final(self) == *old(self)
                        } else {
                            *final(self) == (App {
                                highlighted_index: ((old(self).highlighted_index + 1) as int % (
                                old(self).options@.len() as int)) as usize,
                                ..*old(self)
                            })
                        })
                    },
                    KeyInput::Up => {
                        &&& *final(buffer) == *old(buffer)
                        &&& step is Continue
                        &&& (if old(self).options@.len() == 0 {
                            *final(self) == *old(self)
                        } else if old(self).highlighted_index == 0 {
                            *final(self) == (App {
                                highlighted_index: (old(self).options@.len() - 1) as usize,
                                ..*old(self)
                            })
                        } else {
                            *final(self) == (App {
                                highlighted_index: (old(self).highlighted_index - 1) as usize,
                                ..*old(self)
                            })
                        })
                    },
                    KeyInput::Enter => {
                        let h = old(self).highlighted_index;
                        let sel = if has_selected(old(self).selected_indices@, h) {
                            old(self).selected_indices@
                        } else {
                            old(self).selected_indices@.push(h)
                        };
                        &&& *final(buffer) == *old(buffer)
                        &&& step is Continue
                        &&& final(self).selected_indices@ == sel
                        &&& final(self).current_monitor == Some(sel[0])
                        &&& final(self).input_mode is PathInput
                        &&& final(self).options == old(self).options
                        &&& final(self).paths == old(self).paths
                        &&& final(self).highlighted_index == old(self).highlighted_index
                        &&& final(self).error_message == old(self).error_message
                    },
                    KeyInput::Escape => *final(self) == *old(self) && *final(buffer) == *old(
                        buffer,
                    ) && step is Finished,
                    _ => *final(self) == *old(self) && *final(buffer) == *old(buffer)
                        && step is Continue,
                },
                InputMode::PathInput => match key {
                    KeyInput::Enter => {
                        if trimmed(old(buffer)@).len() == 0 {
                            &&& final(self).error_message matches Some(msg) && msg@
                                == "Path cannot be empty."@
                            &&& final(self).input_mode == old(self).input_mode
                            &&& final(self).options == old(self).options
                            &&& final(self).selected_indices == old(self).selected_indices
                            &&& final(self).highlighted_index == old(self).highlighted_index
                            &&& final(self).paths == old(self).paths
                            &&& final(self).current_monitor == old(self).current_monitor
                            &&& *final(buffer) == *old(buffer)
                            &&& step is Continue
                        } else {
                            &&& save_path_rel(
                                *old(self),
                                *final(self),
                                old(buffer)@,
                                step is Finished,
                            )
                            &&& (step is Finished ==> *final(buffer) == *old(buffer))
                            &&& (step is Continue ==> final(buffer)@.len() == 0)
                        }
                    },
                    KeyInput::Character(c) => *final(self) == *old(self) && final(buffer)@ == old(
                        buffer,
                    )@.push(c) && step is Continue,
                    KeyInput::Backspace => *final(self) == *old(self) && final(buffer)@ == (if old(
                        buffer,
                    )@.len() > 0 {
                        old(buffer)@.drop_last()
                    } else {
                        old(buffer)@
                    }) && step is Continue,
                    KeyInput::Escape => *final(self) == *old(self) && *final(buffer) == *old(
                        buffer,
                    ) && step is Finished,
                    _ => *final(self) == *old(self) && *final(buffer) == *old(buffer)
                        && step is Continue,
                },
            },
    {
        match self.input_mode {
            InputMode::Normal => match key {
                KeyInput::Down => {
                    let n = self.options.len();
                    if n > 0 {
                        self.highlighted_index = (self.highlighted_index + 1) % n;
                    }
                    MenuStep::Continue
                },
                KeyInput::Up => {
                    let n = self.options.len();
                    if n > 0 {
                        if self.highlighted_index == 0 {
                            self.highlighted_index = n - 1;
                        } else {
                            self.highlighted_index = self.highlighted_index - 1;
                        }
                    }
                    MenuStep::Continue
                },
                KeyInput::Enter => {
                    let h = self.highlighted_index;
                    let ns = self.selected_indices.len();
                    let mut si: usize = 0;
                    let mut already = false;
                    while si < ns && !already
                        invariant
                            si <= ns,
                            ns == self.selected_indices@.len(),
                            !already ==> forall|j: int|
                                0 <= j < si ==> (#[trigger] self.selected_indices@[j]) != h,
                            already ==> si < ns && self.selected_indices@[si as int] == h,
                        decreases ns - si + (if already { 0int } else { 1int }),
                    {
                        if self.selected_indices[si] == h {
                            already = true;
                        } else {
                            si += 1;
                        }
                    }
                    if !already {
                        proof {
                            assert(!has_selected(self.selected_indices@, h));
                        }
                        self.selected_indices.push(h);
                    }
                    proof {
                        assert(self.selected_indices@[0] == self.selected_indices@[0]);
                    }
                    self.start_path_input();
                    MenuStep::Continue
                },
                KeyInput::Escape => MenuStep::Finished,
                _ => MenuStep::Continue,
            },
            InputMode::PathInput => match key {
                KeyInput::Enter => {
                    let t = trim_chars(buffer);
                    if t.len() == 0 {
                        self.error_message = Some("Path cannot be empty.".to_owned());
                        MenuStep::Continue
                    } else {
                        if self.save_path(buffer) {
                            MenuStep::Finished
                        } else {
                            buffer.clear();
                            MenuStep::Continue
                        }
                    }
                },
                KeyInput::Character(c) => {
                    buffer.push(c);
                    MenuStep::Continue
                },
                KeyInput::Backspace => {
                    let _ = buffer.pop();
                    MenuStep::Continue
                },
                KeyInput::Escape => MenuStep::Finished,
                _ => MenuStep::Continue,
            },
        }
    }
}

/// The monitor is among the selected ones.
pub open spec fn has_selected(xs: Seq<usize>, m: usize) -> bool {
    exists|j: int| 0 <= j < xs.len() && #[trigger] xs[j] == m
}

} // verus!
