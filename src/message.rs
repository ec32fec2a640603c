use vstd::prelude::*;

verus! {

/// The envelope of one mail transaction: the domain given with HELO, the
/// reverse-path given with MAIL, the recipients in the order given, and the
/// data block as opaque bytes.
#[derive(Debug)]
pub struct Message {
    pub sender_domain: String,
    pub from: String,
    pub to: Vec<String>,
    pub data: Vec<u8>,
}

/// The mathematical value of an envelope.
pub struct MessageView {
    pub sender_domain: Seq<char>,
    pub from: Seq<char>,
    pub to: Seq<Seq<char>>,
    pub data: Seq<u8>,
}

/// The envelope at the start of every transaction.
pub open spec fn empty_message() -> MessageView {
    MessageView {
        sender_domain: Seq::empty(),
        from: Seq::empty(),
        to: Seq::empty(),
        data: Seq::empty(),
    }
}

pub open spec fn strings_view(v: Seq<String>) -> Seq<Seq<char>> {
    v.map_values(|s: String| s@)
}

impl View for Message {
    type V = MessageView;

    open spec fn view(&self) -> MessageView {
        MessageView {
            sender_domain: self.sender_domain@,
            from: self.from@,
            to: strings_view(self.to@),
            data: self.data@,
        }
    }
}

impl Message {
    /// A new, empty envelope.
    pub fn new() -> (r: Message)
        ensures
            r@ == empty_message(),
    {
        let r = Message { sender_domain: String::new(), from: String::new(), to: Vec::new(), data: Vec::new() };
        proof {
            assert(strings_view(r.to@) =~= Seq::<Seq<char>>::empty());
        }
        r
    }

    /// A copy of this envelope with the same contents.
    pub fn duplicate(&self) -> (r: Message)
        ensures
            r@ == self@,
    {
        let mut to: Vec<String> = Vec::new();
        let mut i: usize = 0;
        while i < self.to.len()
            invariant
                i <= self.to@.len(),
                strings_view(to@) =~= strings_view(self.to@.take(i as int)),
            decreases self.to@.len() - i,
        {
            let ghost before = to@;
            to.push(self.to[i].clone());
            proof {
                assert(self.to@.take(i as int + 1) =~= self.to@.take(i as int).push(self.to@[i as int]));
                assert(to@ =~= before.push(self.to@[i as int]));
                assert(strings_view(to@) =~= strings_view(before).push(self.to@[i as int]@));
                assert(strings_view(self.to@.take(i as int + 1)) =~= strings_view(
                    self.to@.take(i as int),
                ).push(self.to@[i as int]@));
            }
            i = i + 1;
        }
        proof {
            assert(self.to@.take(i as int) =~= self.to@);
        }
        Message {
            sender_domain: self.sender_domain.clone(),
            from: self.from.clone(),
            to,
            data: self.data.clone(),
        }
    }
}

impl Default for Message {
    fn default() -> (r: Message)
        ensures
            r@ == empty_message(),
    {
        Message::new()
    }
}

/// The reason a message sink gave for refusing a message.
#[derive(Debug)]
pub struct SinkError {
    pub reason: String,
}

/// A consumer of completed envelopes (a log, a store). Implementations may be
/// called from several connections at once and keep their own synchronisation.
pub trait Handler {
    fn handle_message(&self, message: Message) -> Result<(), SinkError>;
}

/// Fans one envelope out to several sinks, in registration order; the first
/// sink that fails stops the fan-out and its error is returned.
pub struct MultiHandler<H> {
    handlers: Vec<H>,
}

impl<H> MultiHandler<H> {
    /// The sinks, in the order they are called.
    pub closed spec fn sinks(&self) -> Seq<H> {
        self.handlers@
    }

    /// The number of sinks.
    pub fn len(&self) -> (r: usize)
        ensures
            r == self.sinks().len(),
    {
        self.handlers.len()
    }
}

/// Composes sinks into one, called in the order given.
pub fn multi_handler<H: Handler>(handlers: Vec<H>) -> (r: MultiHandler<H>)
    ensures
        r.sinks() == handlers@,
{
    MultiHandler { handlers }
}

impl<H: Handler> Handler for MultiHandler<H> {
    fn handle_message(&self, message: Message) -> (r: Result<(), SinkError>)
        ensures
            self.sinks().len() == 0 ==> r is Ok,
    {
        let mut i: usize = 0;
        while i < self.handlers.len()
            invariant
                i <= self.handlers@.len(),
            decreases self.handlers@.len() - i,
        {
            let outcome = self.handlers[i].handle_message(message.duplicate());
            match outcome {
                Result::Ok(()) => {},
                Result::Err(e) => {
                    return Result::Err(e);
                },
            }
            i = i + 1;
        }
        Result::Ok(())
    }
}

} // verus!
