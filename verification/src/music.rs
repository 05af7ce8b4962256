//! Game music: the songs of each era, and when to start another one.

use crate::text::string_views;
use ahash::AHashMap;
use vstd::prelude::*;

verus! {

/// The eras of the game, in their order.
#[derive(Clone, Copy, Debug, PartialEq, Eq, Structural)]
pub enum Era {
    Ancient,
    Classical,
    Medieval,
    Renaissance,
    Industrial,
    Modern,
    Future,
}

/// The number by which an era keys the table of songs: its place in the
/// order of eras.
pub open spec fn era_key(era: Era) -> u8 {
    match era {
        Era::Ancient => 0,
        Era::Classical => 1,
        Era::Medieval => 2,
        Era::Renaissance => 3,
        Era::Industrial => 4,
        Era::Modern => 5,
        Era::Future => 6,
    }
}

impl Era {
    /// The era's key in the table of songs.
    pub fn key(&self) -> (key: u8)
        ensures
            key == era_key(*self),
    {
        match self {
            Era::Ancient => 0,
            Era::Classical => 1,
            Era::Medieval => 2,
            Era::Renaissance => 3,
            Era::Industrial => 4,
            Era::Modern => 5,
            Era::Future => 6,
        }
    }
}

/// The era a directory name stands for.
pub open spec fn era_named(name: Seq<char>) -> Option<Era> {
    if name == "ancient"@ {
        Some(Era::Ancient)
    } else if name == "classical"@ {
        Some(Era::Classical)
    } else if name == "medieval"@ {
        Some(Era::Medieval)
    } else if name == "renaissance"@ {
        Some(Era::Renaissance)
    } else if name == "industrial"@ {
        Some(Era::Industrial)
    } else if name == "modern"@ {
        Some(Era::Modern)
    } else if name == "future"@ {
        Some(Era::Future)
    } else {
        None
    }
}

/// The index of the first `/` in `s`, or its length if it has none.
pub open spec fn first_slash(s: Seq<char>) -> int
    decreases s.len(),
{
    if s.len() == 0 {
        0
    } else if s[0] == '/' {
        0
    } else {
        1 + first_slash(s.drop_first())
    }
}

/// The era whose music the sound at `path` is: the first `/`-separated
/// component of the path is `music` and the second names the era.
pub open spec fn song_era(path: Seq<char>) -> Option<Era> {
    let k = first_slash(path);
    if k >= path.len() || path.take(k) != "music"@ {
        None
    } else {
        let rest = path.skip(k + 1);
        era_named(rest.take(first_slash(rest)))
    }
}

/// The songs of `era` among `paths`, in their order.
pub open spec fn era_playlist(paths: Seq<Seq<char>>, era: Era) -> Seq<Seq<char>>
    decreases paths.len(),
{
    if paths.len() == 0 {
        Seq::empty()
    } else {
        let rest = era_playlist(paths.drop_last(), era);
        if song_era(paths.last()) == Some(era) {
            rest.push(paths.last())
        } else {
            rest
        }
    }
}

/// Every song listed for an era is music of that era, taken from the
/// listed sounds.
pub proof fn lemma_playlist_of_era(paths: Seq<Seq<char>>, era: Era, i: int)
    requires
        0 <= i < era_playlist(paths, era).len(),
    ensures
        song_era(era_playlist(paths, era)[i]) == Some(era),
        paths.contains(era_playlist(paths, era)[i]),
    decreases paths.len(),
{
    let rest = era_playlist(paths.drop_last(), era);
    if i < rest.len() {
        lemma_playlist_of_era(paths.drop_last(), era, i);
        let w = choose|w: int| 0 <= w < paths.drop_last().len() && paths.drop_last()[w] == rest[i];
        assert(paths[w] == rest[i]);
    } else {
        assert(paths[paths.len() - 1] == paths.last());
    }
}

proof fn lemma_first_slash(s: Seq<char>, k: int)
    requires
        0 <= k <= s.len(),
        forall|j: int| 0 <= j < k ==> s[j] != '/',
        k == s.len() || s[k] == '/',
    ensures
        first_slash(s) == k,
    decreases k,
{
    if k > 0 {
        let t = s.drop_first();
        assert forall|j: int| 0 <= j < k - 1 implies t[j] != '/' by {
            assert(t[j] == s[j + 1]);
        }
        if k < s.len() {
            assert(t[k - 1] == s[k]);
        }
        lemma_first_slash(t, k - 1);
    }
}

/// The characters of `s`.
fn chars_of(s: &str) -> (chars: Vec<char>)
    ensures
        chars@ == s@,
{
    let n = s.unicode_len();
    let mut chars: Vec<char> = Vec::new();
    let mut i: usize = 0;
    while i < n
        invariant
            n == s@.len(),
            0 <= i <= n,
            chars@ == s@.take(i as int),
        decreases n - i,
    {
        let c = s.get_char(i);
        proof {
            assert(s@.take(i + 1) == s@.take(i as int).push(c));
        }
        chars.push(c);
        i = i + 1;
    }
    proof {
        assert(s@.take(n as int) == s@);
    }
    chars
}

/// The index of the first `/` at or after `start`, or the length.
fn find_slash(chars: &Vec<char>, start: usize) -> (k: usize)
    requires
        start <= chars@.len(),
    ensures
        k == start + first_slash(chars@.skip(start as int)),
        start <= k <= chars@.len(),
{
    let mut k: usize = start;
    while k < chars.len() && chars[k] != '/'
        invariant
            start <= k <= chars@.len(),
            forall|j: int| start <= j < k ==> chars@[j] != '/',
        decreases chars@.len() - k,
    {
        k = k + 1;
    }
    proof {
        let s = chars@.skip(start as int);
        assert forall|j: int| 0 <= j < k - start implies s[j] != '/' by {
            assert(s[j] == chars@[start + j]);
        }
        if k < chars@.len() {
            assert(s[k - start] == chars@[k as int]);
        }
        lemma_first_slash(s, k - start);
    }
    k
}

/// Whether the characters from `start` to `end` spell `word`.
fn spells(chars: &Vec<char>, start: usize, end: usize, word: &str) -> (same: bool)
    requires
        start <= end <= chars@.len(),
    ensures
        same == (chars@.subrange(start as int, end as int) == word@),
{
    let n = word.unicode_len();
    if end - start != n {
        return false;
    }
    let mut i: usize = 0;
    while i < n
        invariant
            n == word@.len(),
            end - start == n,
            start <= end <= chars@.len(),
            0 <= i <= n,
            forall|j: int| 0 <= j < i ==> chars@[start + j] == word@[j],
        decreases n - i,
    {
        if chars[start + i] != word.get_char(i) {
            proof {
                assert(chars@.subrange(start as int, end as int)[i as int] != word@[i as int]);
            }
            return false;
        }
        i = i + 1;
    }
    proof {
        assert(chars@.subrange(start as int, end as int) =~= word@);
    }
    true
}

/// The era that the characters from `start` to `end` name.
fn era_in(chars: &Vec<char>, start: usize, end: usize) -> (era: Option<Era>)
    requires
        start <= end <= chars@.len(),
    ensures
        era == era_named(chars@.subrange(start as int, end as int)),
{
    if spells(chars, start, end, "ancient") {
        Some(Era::Ancient)
    } else if spells(chars, start, end, "classical") {
        Some(Era::Classical)
    } else if spells(chars, start, end, "medieval") {
        Some(Era::Medieval)
    } else if spells(chars, start, end, "renaissance") {
        Some(Era::Renaissance)
    } else if spells(chars, start, end, "industrial") {
        Some(Era::Industrial)
    } else if spells(chars, start, end, "modern") {
        Some(Era::Modern)
    } else if spells(chars, start, end, "future") {
        Some(Era::Future)
    } else {
        None
    }
}

/// The era whose music the sound at `path` is, if it is music: sounds under
/// `music/<era>/` belong to that era.
pub fn era_of_song(path: &str) -> (era: Option<Era>)
    ensures
        era == song_era(path@),
{
    let chars = chars_of(path);
    let k = find_slash(&chars, 0);
    proof {
        assert(chars@.skip(0) == chars@);
    }
    if k >= chars.len() || !spells(&chars, 0, k, "music") {
        proof {
            assert(chars@.subrange(0, k as int) == chars@.take(k as int));
        }
        return None;
    }
    let end = find_slash(&chars, k + 1);
    proof {
        assert(chars@.subrange(0, k as int) == chars@.take(k as int));
        let rest = chars@.skip(k + 1);
        assert(chars@.subrange(k + 1, end as int) == rest.take(first_slash(rest)));
    }
    era_in(&chars, k + 1, end)
}

/// The era that keys `key` in the table of songs.
pub open spec fn key_era(key: int) -> Era {
    if key == 0 {
        Era::Ancient
    } else if key == 1 {
        Era::Classical
    } else if key == 2 {
        Era::Medieval
    } else if key == 3 {
        Era::Renaissance
    } else if key == 4 {
        Era::Industrial
    } else if key == 5 {
        Era::Modern
    } else {
        Era::Future
    }
}

/// The songs held in a table from era keys to song paths.
pub uninterp spec fn era_song_entries(m: AHashMap<u8, Vec<String>>) -> Map<u8, Seq<Seq<char>>>;

/// Calls `AHashMap::new`: the table is empty.
#[verifier::external_body]
fn song_table_new() -> (map: AHashMap<u8, Vec<String>>)
    ensures
        (era_song_entries(map) == Map::<u8, Seq<Seq<char>>>::empty()),
{
    AHashMap::new()
}

/// Calls `AHashMap::insert`: the key now maps to the songs, the other
/// entries are unchanged.
#[verifier::external_body]
fn song_table_insert(map: &mut AHashMap<u8, Vec<String>>, key: u8, songs: Vec<String>)
    ensures
        era_song_entries(*final(map)) == era_song_entries(*old(map)).insert(key, string_views(songs@)),
{
    map.insert(key, songs);
}

/// Calls `AHashMap::get` and clones the songs out.
#[verifier::external_body]
fn song_table_get(map: &AHashMap<u8, Vec<String>>, key: u8) -> (songs: Option<Vec<String>>)
    ensures
        match songs {
            Some(list) => era_song_entries(*map).contains_key(key) && string_views(list@) == era_song_entries(*map)[key],
            None => !era_song_entries(*map).contains_key(key),
        },
{
    map.get(&key).cloned()
}

/// Plays music depending on the current era. `H` is the handle of a playing
/// song.
pub struct GameMusic<H> {
    /// The song that is playing, if any.
    pub current_song: Option<H>,
    current_song_era: Era,
    era_songs: AHashMap<u8, Vec<String>>,
}

impl<H> GameMusic<H> {
    /// The song that is playing, if any.
    pub closed spec fn playing_song(&self) -> Option<H> {
        self.current_song
    }

    /// The era of the song last started.
    pub closed spec fn playing_era(&self) -> Era {
        self.current_song_era
    }

    /// The songs of `era`, in the order the sounds were listed.
    pub closed spec fn songs(&self, era: Era) -> Seq<Seq<char>> {
        let entries = era_song_entries(self.era_songs);
        if entries.contains_key(era_key(era)) {
            entries[era_key(era)]
        } else {
            Seq::empty()
        }
    }

    /// Sorts the sounds that are music by era. No song plays yet.
    pub fn new(sounds: &Vec<String>) -> (music: Self)
        ensures
            music.playing_song() is None,
            music.playing_era() == Era::Ancient,
            forall|era: Era| #[trigger] music.songs(era) == era_playlist(string_views(sounds@), era),
    {
        let ghost paths = string_views(sounds@);
        let mut lists: Vec<Vec<String>> = Vec::new();
        let mut k: usize = 0;
        while k < 7
            invariant
                0 <= k <= 7,
                lists@.len() == k,
                forall|j: int| 0 <= j < k ==> (#[trigger] lists@[j])@.len() == 0,
            decreases 7 - k,
        {
            lists.push(Vec::new());
            k = k + 1;
        }
        proof {
            assert(paths.take(0) =~= Seq::<Seq<char>>::empty());
            assert forall|j: int| 0 <= j < 7 implies string_views((#[trigger] lists@[j])@) == era_playlist(paths.take(0), key_era(j)) by {
                assert(string_views(lists@[j]@) =~= Seq::<Seq<char>>::empty());
            }
        }
        let mut i: usize = 0;
        while i < sounds.len()
            invariant
                0 <= i <= sounds@.len(),
                paths == string_views(sounds@),
                lists@.len() == 7,
                forall|j: int| 0 <= j < 7 ==> string_views((#[trigger] lists@[j])@) == era_playlist(paths.take(i as int), key_era(j)),
            decreases sounds@.len() - i,
        {
            let sound = &sounds[i];
            let era = era_of_song(sound.as_str());
            proof {
                assert(paths.take(i + 1).drop_last() == paths.take(i as int));
                assert(paths.take(i + 1).last() == sound@);
            }
            match era {
                Some(e) => {
                    let key = e.key() as usize;
                    let ghost before = lists@;
                    lists[key].push(sound.clone());
                    proof {
                        assert forall|j: int| 0 <= j < 7 implies string_views((#[trigger] lists@[j])@) == era_playlist(paths.take(i + 1), key_era(j)) by {
                            if j == key {
                                assert(key_era(j) == e);
                                assert(string_views(lists@[j]@) =~= string_views(before[j]@).push(sound@));
                            } else {
                                assert(lists@[j] == before[j]);
                                assert(key_era(j) != e);
                            }
                        }
                    }
                },
                None => {},
            }
            i = i + 1;
        }
        proof {
            assert(paths.take(sounds@.len() as int) == paths);
        }
        let mut era_songs = song_table_new();
        let mut remaining: usize = 7;
        while remaining > 0
            invariant
                0 <= remaining <= 7,
                lists@.len() == remaining,
                forall|j: int| 0 <= j < remaining ==> string_views((#[trigger] lists@[j])@) == era_playlist(paths, key_era(j)),
                forall|key: u8| (#[trigger] era_song_entries(era_songs).contains_key(key)) ==> remaining <= key < 7,
                forall|key: u8| remaining <= key < 7 ==> {
                    &&& (#[trigger] era_song_entries(era_songs).contains_key(key)) == (era_playlist(paths, key_era(key as int)).len() > 0)
                    &&& era_song_entries(era_songs).contains_key(key) ==> era_song_entries(era_songs)[key] == era_playlist(paths, key_era(key as int))
                },
            decreases remaining,
        {
            let list = lists.pop().unwrap();
            remaining = remaining - 1;
            if list.len() > 0 {
                song_table_insert(&mut era_songs, remaining as u8, list);
            }
        }
        let music = GameMusic { current_song: None, current_song_era: Era::Ancient, era_songs };
        proof {
            assert forall|era: Era| #[trigger] music.songs(era) == era_playlist(paths, era) by {
                let key = era_key(era);
                assert(key_era(key as int) == era);
                if !era_song_entries(music.era_songs).contains_key(key) {
                    assert(era_playlist(paths, era) =~= Seq::<Seq<char>>::empty());
                }
            }
        }
        music
    }

    /// Whether another song should start: none plays, the game moved to
    /// another era, or the song finished (`song_finished`).
    pub fn needs_new_song(&self, game_era: Era, song_finished: bool) -> (needed: bool)
        ensures
            needed == (self.playing_song() is None || game_era != self.playing_era() || song_finished),
    {
        match self.current_song {
            None => true,
            Some(_) => game_era != self.current_song_era || song_finished,
        }
    }

    /// Whether the song picker must start afresh for `era`: the last song
    /// was of another era.
    pub fn picker_stale(&self, era: Era) -> (stale: bool)
        ensures
            stale == (era != self.playing_era()),
    {
        era != self.current_song_era
    }

    /// The number of songs of `era`.
    pub fn song_count(&self, era: Era) -> (count: usize)
        ensures
            count == self.songs(era).len(),
    {
        match song_table_get(&self.era_songs, era.key()) {
            Some(list) => list.len(),
            None => 0,
        }
    }

    /// Starts song number `index` of `era`: gives its path and records the
    /// era as the playing one.
    pub fn start_song(&mut self, era: Era, index: usize) -> (song: String)
        requires
            index < old(self).songs(era).len(),
        ensures
            song@ == old(self).songs(era)[index as int],
            final(self).playing_era() == era,
            final(self).playing_song() == old(self).playing_song(),
            forall|e: Era| #[trigger] final(self).songs(e) == old(self).songs(e),
    {
        let list = song_table_get(&self.era_songs, era.key()).unwrap();
        assert(list@[index as int]@ == string_views(list@)[index as int]);
        let song = list[index].clone();
        self.current_song_era = era;
        song
    }
}

} // verus!
