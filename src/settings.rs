use vstd::prelude::*;

verus! {

/// User preferences kept between sessions: interface language, the sprites
/// root directory and whether the dark theme is on.
#[derive(Clone, Debug)]
pub struct Settings {
    pub language: String,
    pub sprites_path: String,
    pub dark: bool,
}

impl PartialEq for Settings {
    fn eq(&self, o: &Settings) -> (r: bool)
        ensures
            r == (self.language@ == o.language@ && self.sprites_path@ == o.sprites_path@
                && self.dark == o.dark),
    {
        self.language == o.language && self.sprites_path == o.sprites_path && self.dark == o.dark
    }
}

impl vstd::std_specs::cmp::PartialEqSpecImpl for Settings {
    open spec fn obeys_eq_spec() -> bool {
        true
    }

    open spec fn eq_spec(&self, o: &Settings) -> bool {
        self.language@ == o.language@ && self.sprites_path@ == o.sprites_path@ && self.dark == o.dark
    }
}

impl Default for Settings {
    fn default() -> (r: Settings)
        ensures
            r.language@ == seq!['e', 'n', '-', 'U', 'S'],
            r.sprites_path@ == Seq::<char>::empty(),
            r.dark,
    {
        proof {
            reveal_strlit("en-US");
        }
        Settings { language: String::from_str("en-US"), sprites_path: String::new(), dark: true }
    }
}

} // verus!
