//! What an entry can be asked for, as against what it costs to hold.
//!
//! The same file serves as a generator or as an embedder depending only on
//! how the server was started, and a model is multimodal because a projector
//! was named beside it. Both are properties of the entry, so both are read
//! from the entry -- whatever causes the behaviour, rather than a label
//! beside it.

use vstd::prelude::*;

use super::served::switched_on;
use super::Entry;
use crate::text::{chars_of, same};
use super::served::is_switched_on;

verus! {

/// What a speech runtime takes: `whisper` takes audio and `tts` takes text.
/// Any other runtime, or none, is an ordinary server.
pub open spec fn speech_takes(runtime: Option<Seq<char>>) -> Option<Seq<char>> {
    match runtime {
        Some(r) => if r == "whisper"@ {
            Some("audio"@)
        } else if r == "tts"@ {
            Some("text"@)
        } else {
            None
        },
        None => None,
    }
}

/// The runtime an entry names, as text.
pub open spec fn runtime_of(entry: Entry) -> Option<Seq<char>> {
    match entry.runtime {
        Some(r) => Some(r@),
        None => None,
    }
}

/// Whether any of the generation-suppressing names is set to a value that
/// switches its mode on.
pub open spec fn suppressed(entry: Entry) -> bool {
    exists|name: Seq<char>|
        #![trigger entry.flags.value_of(name)]
        (name == "embeddings"@ || name == "embedding"@ || name == "reranking"@ || name
            == "rerank"@) && match entry.flags.value_of(name) {
            Some(v) => switched_on(v),
            None => false,
        }
}

/// Whether an entry answers with generated text.
pub open spec fn generating(entry: Entry) -> bool {
    speech_takes(runtime_of(entry)) is None && !suppressed(entry)
}

/// What may be sent to an entry: what a speech runtime takes, or text and
/// images when a projector is named, or text.
pub open spec fn accepted(entry: Entry) -> Seq<Seq<char>> {
    match speech_takes(runtime_of(entry)) {
        Some(t) => seq![t],
        None => if entry.projector_path is Some {
            seq!["text"@, "image"@]
        } else {
            seq!["text"@]
        },
    }
}

impl Entry {
    /// What this entry takes when a speech runtime serves it, or `None` when
    /// an ordinary server does.
    pub fn speech_input(&self) -> (r: Option<&'static str>)
        ensures
            match r {
                Some(t) => speech_takes(runtime_of(*self)) == Some(t@),
                None => speech_takes(runtime_of(*self)) is None,
            },
    {
        match &self.runtime {
            None => None,
            Some(runtime) => {
                let r = chars_of(runtime.as_str());
                if same(&r, &chars_of("whisper")) {
                    Some("audio")
                } else if same(&r, &chars_of("tts")) {
                    Some("text")
                } else {
                    None
                }
            },
        }
    }

    /// Whether one flag is set to a value that switches its mode on.
    fn switched(&self, name: &str) -> (b: bool)
        ensures
            b == match self.flags.value_of(name@) {
                Some(v) => switched_on(v),
                None => false,
            },
    {
        match self.flags.get(name) {
            Some(v) => is_switched_on(v),
            None => false,
        }
    }

    /// Whether this entry answers with generated text.
    ///
    /// A server started with `embeddings` returns a vector, and one started
    /// with `reranking` returns scores. Neither holds a conversation, and
    /// neither speech runtime generates either.
    pub fn generates(&self) -> (b: bool)
        ensures
            b == generating(*self),
    {
        if self.speech_input().is_some() {
            return false;
        }
        let on = self.switched("embeddings") || self.switched("embedding") || self.switched(
            "reranking",
        ) || self.switched("rerank");
        proof {
            if !on {
                assert forall|name: Seq<char>|
                    (name == "embeddings"@ || name == "embedding"@ || name == "reranking"@
                        || name == "rerank"@) implies !match #[trigger] self.flags.value_of(name) {
                    Some(v) => switched_on(v),
                    None => false,
                } by {}
            }
        }
        !on
    }

    /// What may be sent to this entry, in the vocabulary a client reads.
    /// Text, when accepted, is always first.
    pub fn accepts(&self) -> (r: Vec<&'static str>)
        ensures
            r@.map_values(|s: &str| s@) == accepted(*self),
    {
        let r = if let Some(takes) = self.speech_input() {
            vec![takes]
        } else if self.projector_path.is_some() {
            vec!["text", "image"]
        } else {
            vec!["text"]
        };
        assert(r@.map_values(|s: &str| s@) =~= accepted(*self));
        r
    }
}

} // verus!
