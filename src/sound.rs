use vstd::prelude::*;

verus! {

/// What a catalog entry holds, as mathematical values.
pub struct SoundView {
    pub name: Seq<char>,
    pub path: Seq<char>,
    pub category: Seq<char>,
    pub volume: nat,
}

/// One entry of the sound catalog. The path is its key; the volume level is
/// the only field that changes after the catalog is built.
pub struct Sound {
    name: String,
    path: String,
    category: String,
    volume: u32,
}

impl View for Sound {
    type V = SoundView;

    closed spec fn view(&self) -> SoundView {
        SoundView {
            name: self.name@,
            path: self.path@,
            category: self.category@,
            volume: self.volume as nat,
        }
    }
}

impl Sound {
    pub fn new(name: &str, path: &str, category: &str, volume: u32) -> (r: Sound)
        ensures
            r@ == (SoundView {
                name: name@,
                path: path@,
                category: category@,
                volume: volume as nat,
            }),
    {
        Sound {
            name: name.to_owned(),
            path: path.to_owned(),
            category: category.to_owned(),
            volume,
        }
    }

    pub fn name(&self) -> (r: &str)
        ensures
            r@ == self@.name,
    {
        self.name.as_str()
    }

    pub fn path(&self) -> (r: &str)
        ensures
            r@ == self@.path,
    {
        self.path.as_str()
    }

    pub(crate) fn path_string(&self) -> (r: &String)
        ensures
            r@ == self@.path,
    {
        &self.path
    }

    pub fn category(&self) -> (r: &str)
        ensures
            r@ == self@.category,
    {
        self.category.as_str()
    }

    pub(crate) fn category_string(&self) -> (r: &String)
        ensures
            r@ == self@.category,
    {
        &self.category
    }

    pub fn volume(&self) -> (r: u32)
        ensures
            r == self@.volume,
    {
        self.volume
    }

    pub fn set_volume(&mut self, volume: u32)
        ensures
            final(self)@ == (SoundView { volume: volume as nat, ..old(self)@ }),
    {
        self.volume = volume;
    }
}

} // verus!
