use vstd::prelude::*;

verus! {

/// What an output channel holds, as mathematical values.
pub struct SinkView {
    pub source: Option<Seq<char>>,
    pub paused: bool,
    pub volume: nat,
}

/// The state of one output channel: the looping source loaded on it (if
/// any), whether playback is paused, and its live volume level.
///
/// A channel is playing exactly when a source is loaded on it; a paused
/// channel keeps its source.
pub struct SinkHandle {
    source: Option<String>,
    paused: bool,
    volume: u32,
}

impl View for SinkHandle {
    type V = SinkView;

    closed spec fn view(&self) -> SinkView {
        SinkView {
            source: match self.source {
                Some(s) => Some(s@),
                None => None,
            },
            paused: self.paused,
            volume: self.volume as nat,
        }
    }
}

impl SinkHandle {
    /// A free channel at full volume.
    pub fn new() -> (r: SinkHandle)
        ensures
            r@ == (SinkView { source: None, paused: false, volume: 1000 }),
    {
        SinkHandle { source: None, paused: false, volume: 1000 }
    }

    pub fn is_playing(&self) -> (r: bool)
        ensures
            r == self@.source.is_some(),
    {
        self.source.is_some()
    }

    pub fn is_paused(&self) -> (r: bool)
        ensures
            r == self@.paused,
    {
        self.paused
    }

    pub fn source(&self) -> (r: Option<&str>)
        ensures
            match r {
                Some(s) => self@.source == Some(s@),
                None => self@.source.is_none(),
            },
    {
        match &self.source {
            Some(s) => Some(s.as_str()),
            None => None,
        }
    }

    pub fn volume(&self) -> (r: u32)
        ensures
            r == self@.volume,
    {
        self.volume
    }

    /// Replaces whatever is loaded with `path`, which starts playing.
    pub fn set_source(&mut self, path: &String)
        ensures
            final(self)@ == (SinkView { source: Some(path@), paused: false, ..old(self)@ }),
    {
        self.source = Some(path.clone());
        self.paused = false;
    }

    pub fn set_volume(&mut self, volume: u32)
        ensures
            final(self)@ == (SinkView { volume: volume as nat, ..old(self)@ }),
    {
        self.volume = volume;
    }

    pub fn play(&mut self)
        ensures
            final(self)@ == (SinkView { paused: false, ..old(self)@ }),
    {
        self.paused = false;
    }

    pub fn pause(&mut self)
        ensures
            final(self)@ == (SinkView { paused: true, ..old(self)@ }),
    {
        self.paused = true;
    }

    /// Stops playback and unloads the source: the channel becomes free.
    pub fn stop(&mut self)
        ensures
            final(self)@ == (SinkView { source: None, paused: false, ..old(self)@ }),
    {
        self.source = None;
        self.paused = false;
    }
}

} // verus!
