//! The decisions around the windows: what the splash screen shows, and when
//! windows open and close.

use vstd::prelude::*;

use crate::cell::text_view;

verus! {

/// The text color of the splash screen's status while a file is opened.
pub const SPLASH_MUTED_TEXT: u32 = 0x5f_63_68;

/// The text color of an error on the splash screen.
pub const SPLASH_ERROR_TEXT: u32 = 0xb3_26_1e;

/// What the splash screen shows.
pub struct SplashState {
    pub error: Option<String>,
    /// Whether files are being opened.
    pub loading: bool,
    /// The file that is being opened.
    pub loading_filename: Option<String>,
}

/// The mathematical content of a [`SplashState`].
#[verifier::ext_equal]
pub struct SplashView {
    pub error: Option<Seq<char>>,
    pub loading: bool,
    pub loading_filename: Option<Seq<char>>,
}

impl View for SplashState {
    type V = SplashView;

    open spec fn view(&self) -> SplashView {
        SplashView {
            error: text_view(self.error),
            loading: self.loading,
            loading_filename: text_view(self.loading_filename),
        }
    }
}

/// What came of opening one file.
pub struct OpenOutcome {
    /// The file's path.
    pub path: String,
    /// What went wrong, where something did.
    pub error: Option<String>,
}

/// What an error on the splash screen says.
pub open spec fn open_error(outcome: OpenOutcome) -> Option<Seq<char>> {
    match outcome.error {
        Some(error) => Some(outcome.path@ + ": "@ + error@),
        None => None,
    }
}

/// The last error among outcomes, behind an earlier one.
pub open spec fn last_error(earlier: Option<Seq<char>>, outcomes: Seq<OpenOutcome>) -> Option<
    Seq<char>,
>
    decreases outcomes.len(),
{
    if outcomes.len() == 0 {
        earlier
    } else {
        match open_error(outcomes.last()) {
            Some(message) => Some(message),
            None => last_error(earlier, outcomes.drop_last()),
        }
    }
}

/// Whether a file was opened.
pub open spec fn some_opened(outcomes: Seq<OpenOutcome>) -> bool {
    exists|i: int| 0 <= i < outcomes.len() && (#[trigger] outcomes[i]).error is None
}

impl SplashView {
    /// What is shown once files have been opened or not.
    pub open spec fn after_opening(self, outcomes: Seq<OpenOutcome>) -> Self {
        SplashView {
            error: if some_opened(outcomes) {
                None
            } else {
                last_error(self.error, outcomes)
            },
            loading: false,
            loading_filename: None,
        }
    }

    /// The status line.
    pub open spec fn status(self) -> Seq<char> {
        if self.loading {
            match self.loading_filename {
                Some(name) => "Opening "@ + name + "…"@,
                None => "Opening workbook…"@,
            }
        } else {
            match self.error {
                Some(error) => error,
                None => Seq::empty(),
            }
        }
    }
}

impl SplashState {
    /// The splash screen at the start.
    pub fn new() -> (state: SplashState)
        ensures
            state@ == (SplashView { error: None, loading: false, loading_filename: None }),
    {
        SplashState { error: None, loading: false, loading_filename: None }
    }

    /// Begins to open files, the first of which has a name. Earlier errors go.
    pub fn begin_opening(&mut self, loading_filename: Option<String>)
        ensures
            final(self)@ == (SplashView {
                error: None,
                loading: true,
                loading_filename: text_view(loading_filename),
            }),
    {
        self.error = None;
        self.loading = true;
        self.loading_filename = loading_filename;
    }

    /// Takes in what came of opening files. Tells whether a file was opened, so
    /// that the splash screen closes; else it shows the last error.
    pub fn finish_opening(&mut self, outcomes: &Vec<OpenOutcome>) -> (closes: bool)
        ensures
            final(self)@ == old(self)@.after_opening(outcomes@),
            closes == some_opened(outcomes@),
    {
        self.loading = false;
        self.loading_filename = None;
        let ghost earlier = old(self)@.error;
        let mut opened = false;
        let mut index: usize = 0;
        assert(outcomes@.take(0) =~= Seq::<OpenOutcome>::empty());
        while index < outcomes.len()
            invariant
                index <= outcomes@.len(),
                text_view(self.error) == last_error(earlier, outcomes@.take(index as int)),
                !self.loading,
                self.loading_filename is None,
                opened == some_opened(outcomes@.take(index as int)),
            decreases outcomes@.len() - index,
        {
            let ghost before = outcomes@.take(index as int);
            let ghost behind = outcomes@.take(index + 1);
            assert(behind.drop_last() =~= before);
            match &outcomes[index].error {
                Some(error) => {
                    let mut message = outcomes[index].path.clone();
                    message.push_str(": ");
                    message.push_str(error.as_str());
                    self.error = Some(message);
                },
                None => {
                    opened = true;
                },
            }
            proof {
                assert(behind.last() == outcomes@[index as int]);
                if some_opened(before) {
                    let i = choose|i: int|
                        0 <= i < before.len() && (#[trigger] before[i]).error is None;
                    assert(behind[i].error is None);
                }
                if some_opened(behind) {
                    let i = choose|i: int|
                        0 <= i < behind.len() && (#[trigger] behind[i]).error is None;
                    if i < index {
                        assert(before[i].error is None);
                    }
                }
                if opened && outcomes@[index as int].error is None {
                    assert(behind[index as int].error is None);
                }
            }
            index += 1;
        }
        assert(outcomes@.take(index as int) =~= outcomes@);
        if opened {
            self.error = None;
        }
        opened
    }

    /// The status line, and its color.
    pub fn status_line(&self) -> (line: (String, u32))
        ensures
            line.0@ == self@.status(),
            line.1 == if self@.loading {
                SPLASH_MUTED_TEXT
            } else {
                SPLASH_ERROR_TEXT
            },
    {
        if self.loading {
            match &self.loading_filename {
                Some(name) => {
                    let mut text = "Opening ".to_owned();
                    text.push_str(name.as_str());
                    text.push_str("…");
                    (text, SPLASH_MUTED_TEXT)
                },
                None => ("Opening workbook…".to_owned(), SPLASH_MUTED_TEXT),
            }
        } else {
            match &self.error {
                Some(error) => (error.clone(), SPLASH_ERROR_TEXT),
                None => (String::new(), SPLASH_ERROR_TEXT),
            }
        }
    }
}

/// Whether the splash screen opens at the start: it does when there is no file to
/// open.
pub fn opens_splash_at_start(has_initial_path: bool, has_pending_paths: bool) -> (opens: bool)
    ensures
        opens == (!has_initial_path && !has_pending_paths),
{
    !has_initial_path && !has_pending_paths
}

/// What follows the closing of a window.
#[derive(Debug, Clone, Copy, PartialEq, Eq, Structural)]
pub enum AfterClose {
    /// Nothing.
    Stay,
    /// The splash screen opens.
    OpenSplash,
    /// The program ends.
    Quit,
}

/// What follows the closing of a window, given whether it was closed as a file,
/// and which windows are left. A file that is closed leaves the program running.
pub fn after_window_closed(
    closed_file: bool,
    document_windows: usize,
    has_splash: bool,
    window_count: usize,
) -> (action: AfterClose)
    ensures
        action == AfterClose::OpenSplash <==> closed_file && document_windows == 0 && !has_splash,
        action == AfterClose::Quit <==> !closed_file && window_count == 0,
        action == action_after(
            closed_file,
            document_windows as nat,
            has_splash,
            window_count as nat,
        ),
{
    if closed_file {
        if document_windows == 0 && !has_splash {
            AfterClose::OpenSplash
        } else {
            AfterClose::Stay
        }
    } else if window_count == 0 {
        AfterClose::Quit
    } else {
        AfterClose::Stay
    }
}

/// The title of a workbook's window.
pub fn window_title(display_name: &str) -> (title: String)
    ensures
        title@ == "spread - "@ + display_name@,
{
    let mut title = "spread - ".to_owned();
    title.push_str(display_name);
    title
}

/// After files were opened nothing is being opened any more. The splash screen says nothing
/// where a file opened; else it says what went wrong with the last one, and what it said before
/// where there was none.
pub proof fn failed_files_are_reported(state: SplashView, outcomes: Seq<OpenOutcome>)
    ensures
        ({
            let after = state.after_opening(outcomes);
            &&& !after.loading && after.loading_filename is None
            &&& outcomes.len() == 0 ==> after.error == state.error
            &&& (exists|i: int| 0 <= i < outcomes.len() && (#[trigger] outcomes[i]).error is None)
                ==> after.error is None
            &&& outcomes.len() > 0 && (forall|i: int|
                0 <= i < outcomes.len() ==> (#[trigger] outcomes[i]).error is Some)
                ==> after.error == Some(
                outcomes.last().path@ + seq![':', ' '] + outcomes.last().error->0@,
            )
        }),
{
    reveal_strlit(": ");
    assert(": "@ =~= seq![':', ' ']);
    if outcomes.len() > 0 && (forall|i: int|
        0 <= i < outcomes.len() ==> (#[trigger] outcomes[i]).error is Some) {
        assert(outcomes.last() == outcomes[outcomes.len() - 1]);
    }
}

/// The status line names the file that is being opened; else it shows the error.
pub proof fn the_status_names_the_file_or_the_error(state: SplashView)
    ensures
        !state.loading ==> state.status() == match state.error {
            Some(error) => error,
            None => Seq::empty(),
        },
        state.loading && state.loading_filename is Some ==> state.status().len()
            == state.loading_filename->0.len() + 9 && state.status().subrange(
            8,
            state.status().len() - 1,
        ) == state.loading_filename->0,
{
    reveal_strlit("Opening ");
    reveal_strlit("…");
    if state.loading && state.loading_filename is Some {
        assert(state.status().subrange(8, state.status().len() - 1)
            =~= state.loading_filename->0);
    }
}

/// What follows the closing of a window.
pub open spec fn action_after(
    closed_file: bool,
    document_windows: nat,
    has_splash: bool,
    window_count: nat,
) -> AfterClose {
    if closed_file && document_windows == 0 && !has_splash {
        AfterClose::OpenSplash
    } else if !closed_file && window_count == 0 {
        AfterClose::Quit
    } else {
        AfterClose::Stay
    }
}

/// Closing a file never ends the program, and leaves a window to go on with: a document, the
/// splash screen, or one that opens. Closing a window ends it with the last one, and never opens
/// another.
pub proof fn closing_files_leaves_a_window(
    document_windows: nat,
    has_splash: bool,
    window_count: nat,
)
    ensures
        action_after(true, document_windows, has_splash, window_count) != AfterClose::Quit,
        document_windows == 0 && !has_splash <==> action_after(
            true,
            document_windows,
            has_splash,
            window_count,
        ) == AfterClose::OpenSplash,
        action_after(false, document_windows, has_splash, window_count) != AfterClose::OpenSplash,
        window_count == 0 <==> action_after(false, document_windows, has_splash, window_count)
            == AfterClose::Quit,
{
}

} // verus!
