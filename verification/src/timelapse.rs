//! The background capture worker: a controller that is either idle or
//! owns one running capture loop, the decisions the loop body takes, and
//! the external command line each capture invokes. The controller only
//! decides; spawning the thread, sleeping, and running the command happen
//! outside the library, which performs the returned action.

use vstd::prelude::*;

use crate::strutil::dec_chars;
use crate::strutil::u64_to_string;

verus! {

/// The external capture program.
pub const CAPTURE_PROGRAM: &'static str = "raspistill";

/// What one capture run is configured with: the sleep interval in
/// seconds, the quality handed to the capture program, the virtual folder
/// the images land in, and the prefix of each image name.
#[derive(Debug, Clone)]
pub struct TimelapseSettings {
    pub frequency: u64,
    pub quality: u64,
    pub folder_name: String,
    pub file_prefix: String,
}

/// What a `start` call decided.
#[derive(Debug, PartialEq, Eq, Structural)]
pub enum StartOutcome {
    /// The controller was idle: exactly one capture loop must now be
    /// spawned with the stored settings.
    Started,
    /// A loop is already running; nothing may be spawned.
    AlreadyRunning,
}

/// What a `stop` call decided.
#[derive(Debug, PartialEq, Eq, Structural)]
pub enum StopOutcome {
    /// The cancellation signal must be sent; the controller is idle at
    /// once, though the loop may sleep up to one interval before it
    /// observes the signal and exits.
    CancelRequested,
    /// Nothing was running.
    NotRunning,
}

/// What the loop body found when it checked for cancellation.
#[derive(Debug, PartialEq, Eq, Structural)]
pub enum CancelCheck {
    /// The signal arrived: the loop must exit.
    Cancelled,
    /// No signal is pending: capture once and keep looping.
    Pending,
    /// The signal channel is gone: report it and keep looping.
    Disconnected,
}

/// What the loop body must do next.
#[derive(Debug)]
pub enum LoopAction {
    /// Leave the loop and let the thread end.
    Exit,
    /// Invoke the capture program with these arguments, then loop again.
    Capture(Vec<String>),
    /// Report the broken channel, then loop again.
    Report,
}

/// The controller of the single background capture loop: idle, or
/// running with the settings of the one in-flight loop. There is at most
/// one loop at a time; callers serialize `start`/`stop`/`is_running`
/// under one lock.
#[derive(Debug)]
pub struct TimelapseThread {
    running: bool,
    settings: Option<TimelapseSettings>,
}

impl TimelapseThread {
    /// Whether the controller holds a running loop.
    pub closed spec fn spec_running(&self) -> bool {
        self.running
    }

    /// The settings of the in-flight loop, when one runs.
    pub closed spec fn spec_settings(&self) -> Option<TimelapseSettings> {
        self.settings
    }

    /// A fresh, idle controller.
    pub fn new() -> (r: TimelapseThread)
        ensures
            !r.spec_running(),
            r.spec_settings() is None,
    {
        TimelapseThread { running: false, settings: None }
    }

    /// Reports the controller's intended state: whether a loop was
    /// started and not yet stopped. After `stop` this is false at once,
    /// even while the loop still sleeps through its last interval.
    pub fn is_running(&self) -> (r: bool)
        ensures
            r == self.spec_running(),
    {
        self.running
    }

    /// Starts the capture loop: when idle, the controller becomes
    /// running with these settings and the caller must spawn exactly one
    /// loop; when already running, nothing changes and no second loop
    /// may ever be spawned.
    pub fn start(&mut self, settings: TimelapseSettings) -> (r: StartOutcome)
        ensures
            old(self).spec_running() ==> *final(self) == *old(self) && r
                == StartOutcome::AlreadyRunning,
            !old(self).spec_running() ==> final(self).spec_running() && final(self).spec_settings()
                == Some(settings) && r == StartOutcome::Started,
    {
        if self.running {
            return StartOutcome::AlreadyRunning;
        }
        self.settings = Some(settings);
        self.running = true;
        StartOutcome::Started
    }

    /// Stops the capture loop: when running, the controller is idle
    /// immediately and the caller must send the cancellation signal; the
    /// loop itself may take up to one interval to observe it. When
    /// nothing runs, nothing changes.
    pub fn stop(&mut self) -> (r: StopOutcome)
        ensures
            old(self).spec_running() ==> !final(self).spec_running()
                && final(self).spec_settings() is None && r == StopOutcome::CancelRequested,
            !old(self).spec_running() ==> *final(self) == *old(self) && r
                == StopOutcome::NotRunning,
    {
        if !self.running {
            return StopOutcome::NotRunning;
        }
        self.running = false;
        self.settings = None;
        StopOutcome::CancelRequested
    }
}

/// The command-line arguments of one capture: a one-second warm-up, the
/// configured quality, and the output image under the configured folder,
/// named from the prefix and the supplied timestamp text.
pub fn capture_args(settings: &TimelapseSettings, root_folder: &str, time: &str) -> (r: Vec<
    String,
>)
    ensures
        r@.len() == 6,
        r@[0]@ == "-t"@,
        r@[1]@ == "1000"@,
        r@[2]@ == "-q"@,
        r@[3]@ == dec_chars(settings.quality as nat),
        r@[4]@ == "-o"@,
        r@[5]@ == capture_output_path(
            root_folder@,
            settings.folder_name@,
            settings.file_prefix@,
            time@,
        ),
{
    proof {
        reveal_strlit("/");
        reveal_strlit("-");
        reveal_strlit(".jpg");
    }
    let mut out = root_folder.to_owned();
    out.append(settings.folder_name.as_str());
    out.append("/");
    out.append(settings.file_prefix.as_str());
    out.append("-");
    out.append(time);
    out.append(".jpg");
    proof {
        assert("/"@ =~= seq!['/']);
        assert("-"@ =~= seq!['-']);
    }
    let mut r: Vec<String> = Vec::new();
    r.push("-t".to_owned());
    r.push("1000".to_owned());
    r.push("-q".to_owned());
    r.push(u64_to_string(settings.quality));
    r.push("-o".to_owned());
    r.push(out);
    r
}

/// Where one capture lands: the sandbox prefix, the target folder, then
/// `<prefix>-<time>.jpg`.
pub open spec fn capture_output_path(
    root_folder: Seq<char>,
    folder_name: Seq<char>,
    file_prefix: Seq<char>,
    time: Seq<char>,
) -> Seq<char> {
    root_folder + folder_name + seq!['/'] + file_prefix + seq!['-'] + time + ".jpg"@
}

/// What the loop body does after one sleep, given what the cancellation
/// check found: exit on a signal, capture when none is pending, and
/// report, not crash, on a broken channel.
pub fn loop_step(check: CancelCheck, settings: &TimelapseSettings, root_folder: &str, time: &str)
    -> (r: LoopAction)
    ensures
        check == CancelCheck::Cancelled ==> r is Exit,
        check == CancelCheck::Pending ==> (r matches LoopAction::Capture(args) && args@.len() == 6
            && args@[0]@ == "-t"@ && args@[1]@ == "1000"@ && args@[2]@ == "-q"@ && args@[3]@
            == dec_chars(settings.quality as nat) && args@[4]@ == "-o"@ && args@[5]@
            == capture_output_path(
            root_folder@,
            settings.folder_name@,
            settings.file_prefix@,
            time@,
        )),
        check == CancelCheck::Disconnected ==> r is Report,
{
    match check {
        CancelCheck::Cancelled => LoopAction::Exit,
        CancelCheck::Pending => LoopAction::Capture(capture_args(settings, root_folder, time)),
        CancelCheck::Disconnected => LoopAction::Report,
    }
}

} // verus!
