//! The key-binding profile handed to the playback process: an ordered list
//! of key/command pairs and the text of the configuration file generated
//! from it. Writing the file to disk is the caller's concern.

use vstd::prelude::*;

verus! {

/// The bindings of the profile tuned for synchronized viewing, in the order
/// the configuration lists them.
pub open spec fn sync_profile_binds() -> Seq<(Seq<char>, Seq<char>)> {
    seq![
        ("SPACE"@, "cycle pause"@),
        ("p"@, "cycle pause"@),
        ("LEFT"@, "playlist-prev"@),
        ("RIGHT"@, "playlist-next"@),
        ("DOWN"@, "seek -30"@),
        ("UP"@, "seek 30"@),
        ("Shift+LEFT"@, "seek -5"@),
        ("Shift+RIGHT"@, "seek 5"@),
        ("n"@, "playlist-next"@),
        ("N"@, "playlist-prev"@),
        (">"@, "playlist-next"@),
        ("<"@, "playlist-prev"@),
        ("z"@, "add video-zoom 0.1"@),
        ("Z"@, "add video-zoom -0.1"@),
        ("r"@, "set video-zoom 0; set video-pan-x 0; set video-pan-y 0"@),
        ("h"@, "add video-pan-x -0.05"@),
        ("l"@, "add video-pan-x 0.05"@),
        ("k"@, "add video-pan-y -0.05"@),
        ("j"@, "add video-pan-y 0.05"@),
        ("Ctrl+LEFT"@, "add video-rotate -90"@),
        ("Ctrl+RIGHT"@, "add video-rotate 90"@),
        ("="@, "add speed 0.1"@),
        ("-"@, "add speed -0.1"@),
        ("BS"@, "set speed 1.0"@),
        ("9"@, "add volume -5"@),
        ("0"@, "add volume 5"@),
        ("m"@, "cycle mute"@),
        ("f"@, "cycle fullscreen"@),
        ("ESC"@, "set fullscreen no"@),
        ("i"@, "script-binding stats/display-stats-toggle"@),
        ("I"@, "script-binding stats/display-page-4"@),
        ("q"@, "quit"@),
        ("Q"@, "quit-watch-later"@),
        ("s"@, "ignore"@),
        ("S"@, "ignore"@),
    ]
}

/// An ordered set of key bindings for the playback process.
pub struct KeybindProfile {
    keybinds: Vec<(String, String)>,
}

impl KeybindProfile {
    /// The bindings, as pairs of key and command text.
    pub closed spec fn binds(self) -> Seq<(Seq<char>, Seq<char>)> {
        self.keybinds@.map_values(|p: (String, String)| (p.0@, p.1@))
    }

    /// The profile tuned for synchronized viewing: playback and navigation
    /// on obvious keys, zoom, pan, rotation, speed and volume controls, and
    /// screenshots disabled so no key fights the synchronization.
    pub fn new_sync_profile() -> (r: Self)
        ensures
            r.binds() == sync_profile_binds(),
    {
        let mut keybinds: Vec<(String, String)> = Vec::new();
        keybinds.push(("SPACE".to_owned(), "cycle pause".to_owned()));
        keybinds.push(("p".to_owned(), "cycle pause".to_owned()));
        keybinds.push(("LEFT".to_owned(), "playlist-prev".to_owned()));
        keybinds.push(("RIGHT".to_owned(), "playlist-next".to_owned()));
        keybinds.push(("DOWN".to_owned(), "seek -30".to_owned()));
        keybinds.push(("UP".to_owned(), "seek 30".to_owned()));
        keybinds.push(("Shift+LEFT".to_owned(), "seek -5".to_owned()));
        keybinds.push(("Shift+RIGHT".to_owned(), "seek 5".to_owned()));
        keybinds.push(("n".to_owned(), "playlist-next".to_owned()));
        keybinds.push(("N".to_owned(), "playlist-prev".to_owned()));
        keybinds.push((">".to_owned(), "playlist-next".to_owned()));
        keybinds.push(("<".to_owned(), "playlist-prev".to_owned()));
        keybinds.push(("z".to_owned(), "add video-zoom 0.1".to_owned()));
        keybinds.push(("Z".to_owned(), "add video-zoom -0.1".to_owned()));
        keybinds.push(
            ("r".to_owned(), "set video-zoom 0; set video-pan-x 0; set video-pan-y 0".to_owned()),
        );
        keybinds.push(("h".to_owned(), "add video-pan-x -0.05".to_owned()));
        keybinds.push(("l".to_owned(), "add video-pan-x 0.05".to_owned()));
        keybinds.push(("k".to_owned(), "add video-pan-y -0.05".to_owned()));
        keybinds.push(("j".to_owned(), "add video-pan-y 0.05".to_owned()));
        keybinds.push(("Ctrl+LEFT".to_owned(), "add video-rotate -90".to_owned()));
        keybinds.push(("Ctrl+RIGHT".to_owned(), "add video-rotate 90".to_owned()));
        keybinds.push(("=".to_owned(), "add speed 0.1".to_owned()));
        keybinds.push(("-".to_owned(), "add speed -0.1".to_owned()));
        keybinds.push(("BS".to_owned(), "set speed 1.0".to_owned()));
        keybinds.push(("9".to_owned(), "add volume -5".to_owned()));
        keybinds.push(("0".to_owned(), "add volume 5".to_owned()));
        keybinds.push(("m".to_owned(), "cycle mute".to_owned()));
        keybinds.push(("f".to_owned(), "cycle fullscreen".to_owned()));
        keybinds.push(("ESC".to_owned(), "set fullscreen no".to_owned()));
        keybinds.push(("i".to_owned(), "script-binding stats/display-stats-toggle".to_owned()));
        keybinds.push(("I".to_owned(), "script-binding stats/display-page-4".to_owned()));
        keybinds.push(("q".to_owned(), "quit".to_owned()));
        keybinds.push(("Q".to_owned(), "quit-watch-later".to_owned()));
        keybinds.push(("s".to_owned(), "ignore".to_owned()));
        keybinds.push(("S".to_owned(), "ignore".to_owned()));
        let r = KeybindProfile { keybinds };
        proof {
            assert(r.binds() =~= sync_profile_binds());
        }
        r
    }

    /// Append a custom binding.
    pub fn add_keybind(&mut self, key: String, command: String)
        ensures
            final(self).binds() == old(self).binds().push((key@, command@)),
    {
        let ghost k = key@;
        let ghost c = command@;
        self.keybinds.push((key, command));
        proof {
            assert(final(self).binds() =~= old(self).binds().push((k, c)));
        }
    }

    /// Drop every binding of the given key.
    pub fn remove_keybind(&mut self, key: &str)
        ensures
            final(self).binds() == old(self).binds().filter(
                |p: (Seq<char>, Seq<char>)| p.0 != key@,
            ),
    {
        let ghost olds = self.binds();
        let ghost pred = |p: (Seq<char>, Seq<char>)| p.0 != key@;
        let n = self.keybinds.len();
        let mut kept: Vec<(String, String)> = Vec::new();
        let mut i: usize = 0;
        proof {
            reveal(Seq::filter);
            assert(olds.take(0).filter(pred) =~= kept@.map_values(
                |p: (String, String)| (p.0@, p.1@),
            ));
        }
        while i < n
            invariant
                0 <= i <= n,
                n == self.keybinds@.len(),
                olds == self.binds(),
                pred == (|p: (Seq<char>, Seq<char>)| p.0 != key@),
                kept@.map_values(|p: (String, String)| (p.0@, p.1@)) == olds.take(i as int).filter(
                    pred,
                ),
            decreases n - i,
        {
            let pair = &self.keybinds[i];
            proof {
                reveal(Seq::filter);
                assert(*pair == self.keybinds@[i as int]);
                assert(olds[i as int] == (pair.0@, pair.1@));
                let t = olds.take(i as int + 1);
                assert(t.drop_last() =~= olds.take(i as int));
                assert(t.last() == olds[i as int]);
            }
            if !crate::text::str_eq(pair.0.as_str(), key) {
                let k2 = pair.0.clone();
                let c2 = pair.1.clone();
                kept.push((k2, c2));
            }
            proof {
                assert(kept@.map_values(|p: (String, String)| (p.0@, p.1@)) =~= olds.take(
                    i as int + 1,
                ).filter(pred));
            }
            i = i + 1;
        }
        proof {
            assert(olds.take(n as int) =~= olds);
        }
        self.keybinds = kept;
    }

    /// The text of one configuration line: the key padded to twenty
    /// columns, a space, the command, and a newline.
    pub open spec fn config_line(p: (Seq<char>, Seq<char>)) -> Seq<char> {
        p.0 + Seq::new(
            if p.0.len() < 20 {
                (20 - p.0.len()) as nat
            } else {
                0
            },
            |i: int| ' ',
        ) + " "@ + p.1 + "\n"@
    }

    /// The configuration text for a list of bindings.
    pub open spec fn config_body(binds: Seq<(Seq<char>, Seq<char>)>) -> Seq<char>
        decreases binds.len(),
    {
        if binds.len() == 0 {
            Seq::empty()
        } else {
            Self::config_body(binds.drop_last()) + Self::config_line(binds.last())
        }
    }

    /// The whole configuration file: two heading comment lines, a blank line,
/// then one line per binding.
    pub open spec fn spec_config(binds: Seq<(Seq<char>, Seq<char>)>) -> Seq<char> {
        "# SyncRead MPV Keybind Profile\n# Generated automatically - do not edit manually\n\n"@ + Self::config_body(binds)
    }

    /// Render the configuration text for the playback process, as
    /// `spec_config` says of the bindings.
    pub fn generate_config(&self) -> (r: String)
        ensures
            r@ == Self::spec_config(self.binds()),
    {
        let ghost binds = self.binds();
        let mut out = String::new();
        out.append("# SyncRead MPV Keybind Profile\n# Generated automatically - do not edit manually\n\n");
        let n = self.keybinds.len();
        let mut i: usize = 0;
        proof {
            assert(out@ =~= "# SyncRead MPV Keybind Profile\n# Generated automatically - do not edit manually\n\n"@ + Self::config_body(
                binds.take(0),
            ));
        }
        while i < n
            invariant
                0 <= i <= n,
                n == self.keybinds@.len(),
                binds == self.binds(),
                out@ == "# SyncRead MPV Keybind Profile\n# Generated automatically - do not edit manually\n\n"@ + Self::config_body(
                    binds.take(i as int),
                ),
            decreases n - i,
        {
            let pair = &self.keybinds[i];
            proof {
                assert(*pair == self.keybinds@[i as int]);
                assert(binds[i as int] == (pair.0@, pair.1@));
            }
            out.append(pair.0.as_str());
            let klen = pair.0.unicode_len();
            let mut pad: usize = if klen < 20 {
                20 - klen
            } else {
                0
            };
            let ghost total_pad = pad;
            proof {
                reveal_strlit(" ");
            }
            while pad > 0
                invariant
                    pad <= total_pad,
                    " "@ =~= seq![' '],
                    out@ == "# SyncRead MPV Keybind Profile\n# Generated automatically - do not edit manually\n\n"@ + Self::config_body(
                        binds.take(i as int),
                    ) + self.keybinds@[i as int].0@ + Seq::new(
                        (total_pad - pad) as nat,
                        |m: int| ' ',
                    ),
                decreases pad,
            {
                out.append(" ");
                proof {
                    assert(out@ =~= "# SyncRead MPV Keybind Profile\n# Generated automatically - do not edit manually\n\n"@ + Self::config_body(
                        binds.take(i as int),
                    ) + self.keybinds@[i as int].0@ + Seq::new(
                        (total_pad - (pad - 1)) as nat,
                        |m: int| ' ',
                    ));
                }
                pad = pad - 1;
            }
            out.append(" ");
            out.append(pair.1.as_str());
            out.append("\n");
            proof {
                let t = binds.take(i as int + 1);
                assert(t.drop_last() =~= binds.take(i as int));
                assert(t.last() == binds[i as int]);
                assert(out@ =~= "# SyncRead MPV Keybind Profile\n# Generated automatically - do not edit manually\n\n"@ + Self::config_body(
                    binds.take(i as int + 1),
                ));
            }
            i = i + 1;
        }
        proof {
            assert(binds.take(n as int) =~= binds);
        }
        out
    }
}

impl Default for KeybindProfile {
    /// The default profile is the one tuned for synchronized viewing.
    fn default() -> (r: Self)
        ensures
            r.binds() == sync_profile_binds(),
    {
        Self::new_sync_profile()
    }
}

} // verus!
