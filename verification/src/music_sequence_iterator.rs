//! The commands of a text, read one at a time.

use vstd::prelude::*;

use crate::music::MusicEntity;
use crate::parser::{entities_from, read_token};

verus! {

/// A place in a text, and the commands that stand from there on.
pub struct IntoMusicSequenceIter<'a> {
    source: &'a [u8],
    position: usize,
}

impl<'a> IntoMusicSequenceIter<'a> {
    #[verifier::type_invariant]
    spec fn in_text(self) -> bool {
        self.position <= self.source@.len()
    }

    /// The commands that are still to come.
    pub closed spec fn remaining(&self) -> Seq<MusicEntity> {
        entities_from(self.source@, self.position as int)
    }

    /// The commands of `source` from its start.
    pub fn new(source: &'a [u8]) -> (entities: IntoMusicSequenceIter<'a>)
        ensures
            entities.remaining() == entities_from(source@, 0),
    {
        IntoMusicSequenceIter { source, position: 0 }
    }

    /// The next command, if one is still to come. What stands between two
    /// commands is passed over.
    pub fn next(&mut self) -> (entity: Option<MusicEntity>)
        ensures
            old(self).remaining().len() == 0 ==> entity is None && final(self).remaining().len()
                == 0,
            old(self).remaining().len() > 0 ==> entity == Some(old(self).remaining()[0])
                && final(self).remaining() == old(self).remaining().drop_first(),
    {
        proof {
            use_type_invariant(&*self);
        }
        let ghost coming = self.remaining();
        while self.position < self.source.len()
            invariant
                self.position <= self.source@.len(),
                self.remaining() == coming,
                coming == old(self).remaining(),
            decreases self.source@.len() - self.position,
        {
            let (entity, end) = read_token(self.source, self.position);
            self.position = end;
            if let Some(entity) = entity {
                assert(coming =~= seq![entity] + entities_from(self.source@, end as int));
                assert(coming.drop_first() =~= entities_from(self.source@, end as int));
                return Some(entity);
            }
        }
        None
    }
}

} // verus!
