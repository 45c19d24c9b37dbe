use vstd::prelude::*;

verus! {

/// A position-tracking reader over a fixed sequence, which hands out a
/// designated terminator value once the sequence is exhausted.
pub struct Cursor<T> {
    buffer: Vec<T>,
    offset: usize,
    end: T,
}

/// The element at `i`, or the terminator when `i` is past the end.
pub open spec fn item_or_end<T>(items: Seq<T>, i: int, end: T) -> T {
    if 0 <= i < items.len() {
        items[i]
    } else {
        end
    }
}

/// Turns a sequence into a cursor over it.
pub trait ToCursor<T>: Sized {
    spec fn cursor_items(&self) -> Seq<T>;

    fn to_cursor(self, terminator: T) -> (r: Cursor<T>)
        ensures
            r.items() == self.cursor_items(),
            r.position() == 0,
            r.terminator() == terminator,
    ;
}

impl<T: Copy> ToCursor<T> for Vec<T> {
    open spec fn cursor_items(&self) -> Seq<T> {
        self@
    }

    fn to_cursor(self, terminator: T) -> (r: Cursor<T>) {
        Cursor::new(self, terminator)
    }
}

impl<T> Cursor<T> {
    /// The whole underlying sequence.
    pub closed spec fn items(&self) -> Seq<T> {
        self.buffer@
    }

    /// How many elements have been consumed.
    pub closed spec fn position(&self) -> int {
        self.offset as int
    }

    /// The value handed out once the sequence is exhausted.
    pub closed spec fn terminator(&self) -> T {
        self.end
    }

    pub open spec fn wf(&self) -> bool {
        0 <= self.position() <= self.items().len()
    }

    /// The element `count` places ahead, or the terminator.
    pub open spec fn ahead(&self, count: int) -> T {
        item_or_end(self.items(), self.position() + count, self.terminator())
    }
}

impl<T: Copy> Cursor<T> {
    pub fn new(buffer: Vec<T>, end: T) -> (r: Self)
        ensures
            r.wf(),
            r.items() == buffer@,
            r.position() == 0,
            r.terminator() == end,
    {
        Cursor { offset: 0usize, buffer, end }
    }

    /// Consumes and returns the next element, or returns the terminator
    /// without moving when the sequence is exhausted.
    pub fn next_or_end(&mut self) -> (r: T)
        requires
            old(self).wf(),
        ensures
            final(self).wf(),
            r == old(self).ahead(0),
            final(self).items() == old(self).items(),
            final(self).terminator() == old(self).terminator(),
            final(self).position() == if old(self).position() < old(self).items().len() {
                old(self).position() + 1
            } else {
                old(self).position()
            },
    {
        if self.offset < self.buffer.len() {
            self.offset += 1;
            self.buffer[self.offset - 1]
        } else {
            self.end
        }
    }

    /// The element `count` places ahead of the position, or the terminator.
    pub fn peek(&mut self, count: usize) -> (r: T)
        requires
            old(self).wf(),
        ensures
            *final(self) == *old(self),
            r == old(self).ahead(count as int),
    {
        if self.is_at_end() || count >= self.buffer.len() - self.offset {
            self.end
        } else {
            self.buffer[self.offset + count]
        }
    }

    pub fn peek_first(&mut self) -> (r: T)
        requires
            old(self).wf(),
        ensures
            *final(self) == *old(self),
            r == old(self).ahead(0),
    {
        self.peek(0)
    }

    pub fn peek_second(&mut self) -> (r: T)
        requires
            old(self).wf(),
        ensures
            *final(self) == *old(self),
            r == old(self).ahead(1),
    {
        self.peek(1)
    }

    pub fn offset(&self) -> (r: usize)
        ensures
            r == self.position(),
    {
        self.offset
    }

    /// Consumes elements while `predicate` holds of the next one and the
    /// sequence is not exhausted.
    pub fn skip_while<F: Fn(T) -> bool>(&mut self, predicate: F)
        requires
            old(self).wf(),
            forall|x: T| #[trigger] predicate.requires((x,)),
        ensures
            final(self).wf(),
            final(self).items() == old(self).items(),
            final(self).terminator() == old(self).terminator(),
            old(self).position() <= final(self).position(),
            forall|i: int|
                old(self).position() <= i < final(self).position() ==> predicate.ensures(
                    (old(self).items()[i],),
                    true,
                ),
            final(self).position() == final(self).items().len() || predicate.ensures(
                (final(self).ahead(0),),
                false,
            ),
    {
        let ghost start = self.offset;
        loop
            invariant
                self.wf(),
                self.items() == old(self).items(),
                self.terminator() == old(self).terminator(),
                start == old(self).position(),
                start <= self.position(),
                forall|x: T| #[trigger] predicate.requires((x,)),
                forall|i: int|
                    start <= i < self.position() ==> predicate.ensures(
                        (old(self).items()[i],),
                        true,
                    ),
            ensures
                self.wf(),
                self.items() == old(self).items(),
                self.terminator() == old(self).terminator(),
                start <= self.position(),
                forall|i: int|
                    start <= i < self.position() ==> predicate.ensures(
                        (old(self).items()[i],),
                        true,
                    ),
                self.position() == self.items().len() || predicate.ensures(
                    (self.ahead(0),),
                    false,
                ),
            decreases self.items().len() - self.position(),
        {
            let next = self.peek_first();
            let keep = predicate(next);
            if !keep || self.is_at_end() {
                break;
            }
            self.next_or_end();
        }
    }

    pub fn is_at_end(&self) -> (r: bool)
        requires
            self.wf(),
        ensures
            r == (self.position() == self.items().len()),
    {
        self.buffer.len() == self.offset
    }
}

impl Cursor<char> {
    /// Consumes the next element when it equals `item`.
    pub fn matches(&mut self, item: char) -> (r: bool)
        requires
            old(self).wf(),
        ensures
            final(self).wf(),
            r == (old(self).ahead(0) == item),
            final(self).items() == old(self).items(),
            final(self).terminator() == old(self).terminator(),
            final(self).position() == if r && old(self).position() < old(self).items().len() {
                old(self).position() + 1
            } else {
                old(self).position()
            },
    {
        let next_item = self.peek_first();
        if next_item == item {
            self.next_or_end();
        }
        next_item == item
    }
}

} // verus!
