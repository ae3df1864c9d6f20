use vstd::prelude::*;

verus! {

/// How a fee was paid.
#[derive(Clone, Copy, Debug, PartialEq, Eq, Structural)]
pub enum PayType {
    Cash,
    VisaCredit,
    CreditCard,
}

/// What a fee is for.
#[derive(Clone, Copy, Debug, PartialEq, Eq, Structural)]
pub enum FeeType {
    OtherUnknown,
    Administrative,
    Damage,
    Overdue,
    Processing,
    Rental,
    Replacement,
    ComputerAccessCharge,
    HoldFee,
}

/// What the request parameters hold, as text and numbers.
pub struct ParamSetView {
    pub institution: Option<Seq<char>>,
    pub terminal_pwd: Option<Seq<char>>,
    pub sip_user: Option<Seq<char>>,
    pub sip_pass: Option<Seq<char>>,
    pub location: Option<Seq<char>>,
    pub patron_id: Option<Seq<char>>,
    pub patron_pwd: Option<Seq<char>>,
    pub item_id: Option<Seq<char>>,
    pub pay_amount: Option<Seq<char>>,
    pub transaction_id: Option<Seq<char>>,
    pub fee_id: Option<Seq<char>>,
    pub start_item: Option<usize>,
    pub end_item: Option<usize>,
    pub summary: Option<usize>,
    pub pay_type: Option<PayType>,
    pub fee_type: Option<FeeType>,
}

pub open spec fn text_of(o: Option<String>) -> Option<Seq<char>> {
    match o {
        Some(s) => Some(s@),
        None => None,
    }
}

pub open spec fn str_of(o: Option<&str>) -> Option<Seq<char>> {
    match o {
        Some(s) => Some(s@),
        None => None,
    }
}

fn borrow_text(o: &Option<String>) -> (r: Option<&str>)
    ensures
        str_of(r) == text_of(*o),
{
    match o {
        Some(s) => Some(s.as_str()),
        None => None,
    }
}

/// A view with no parameter set.
pub open spec fn empty_params() -> ParamSetView {
    ParamSetView {
        institution: None,
        terminal_pwd: None,
        sip_user: None,
        sip_pass: None,
        location: None,
        patron_id: None,
        patron_pwd: None,
        item_id: None,
        pay_amount: None,
        transaction_id: None,
        fee_id: None,
        start_item: None,
        end_item: None,
        summary: None,
        pay_type: None,
        fee_type: None,
    }
}

/// Friendly-named parameters of common SIP requests.
#[derive(Debug)]
pub struct ParamSet {
    institution: Option<String>,
    terminal_pwd: Option<String>,
    sip_user: Option<String>,
    sip_pass: Option<String>,
    location: Option<String>,
    patron_id: Option<String>,
    patron_pwd: Option<String>,
    item_id: Option<String>,
    start_item: Option<usize>,
    end_item: Option<usize>,
    /// Fee Paid amount
    pay_amount: Option<String>,
    pay_type: Option<PayType>,
    fee_type: Option<FeeType>,
    /// Fee Paid ILS Transaction ID
    fee_id: Option<String>,
    /// Fee Paid SIP Client / External Transaction ID
    transaction_id: Option<String>,
    /// Which position (if any) of the patron summary string is set to
    /// 'Y'. Positions are zero-based.
    summary: Option<usize>,
}

impl ParamSet {
    pub closed spec fn view(&self) -> ParamSetView {
        ParamSetView {
            institution: text_of(self.institution),
            terminal_pwd: text_of(self.terminal_pwd),
            sip_user: text_of(self.sip_user),
            sip_pass: text_of(self.sip_pass),
            location: text_of(self.location),
            patron_id: text_of(self.patron_id),
            patron_pwd: text_of(self.patron_pwd),
            item_id: text_of(self.item_id),
            pay_amount: text_of(self.pay_amount),
            transaction_id: text_of(self.transaction_id),
            fee_id: text_of(self.fee_id),
            start_item: self.start_item,
            end_item: self.end_item,
            summary: self.summary,
            pay_type: self.pay_type,
            fee_type: self.fee_type,
        }
    }

    /// A parameter set with nothing in it.
    pub fn new() -> (r: ParamSet)
        ensures
            r.view() == empty_params(),
    {
        ParamSet {
            institution: None,
            terminal_pwd: None,
            sip_user: None,
            sip_pass: None,
            location: None,
            patron_id: None,
            patron_pwd: None,
            item_id: None,
            start_item: None,
            end_item: None,
            pay_amount: None,
            pay_type: None,
            fee_type: None,
            fee_id: None,
            transaction_id: None,
            summary: None,
        }
    }

    pub fn institution(&self) -> (r: Option<&str>)
        ensures
            str_of(r) == self.view().institution,
    {
        borrow_text(&self.institution)
    }

    pub fn terminal_pwd(&self) -> (r: Option<&str>)
        ensures
            str_of(r) == self.view().terminal_pwd,
    {
        borrow_text(&self.terminal_pwd)
    }

    pub fn sip_user(&self) -> (r: Option<&str>)
        ensures
            str_of(r) == self.view().sip_user,
    {
        borrow_text(&self.sip_user)
    }

    pub fn sip_pass(&self) -> (r: Option<&str>)
        ensures
            str_of(r) == self.view().sip_pass,
    {
        borrow_text(&self.sip_pass)
    }

    pub fn location(&self) -> (r: Option<&str>)
        ensures
            str_of(r) == self.view().location,
    {
        borrow_text(&self.location)
    }

    pub fn patron_id(&self) -> (r: Option<&str>)
        ensures
            str_of(r) == self.view().patron_id,
    {
        borrow_text(&self.patron_id)
    }

    pub fn patron_pwd(&self) -> (r: Option<&str>)
        ensures
            str_of(r) == self.view().patron_pwd,
    {
        borrow_text(&self.patron_pwd)
    }

    pub fn item_id(&self) -> (r: Option<&str>)
        ensures
            str_of(r) == self.view().item_id,
    {
        borrow_text(&self.item_id)
    }

    pub fn start_item(&self) -> (r: Option<usize>)
        ensures
            r == self.view().start_item,
    {
        self.start_item
    }

    pub fn end_item(&self) -> (r: Option<usize>)
        ensures
            r == self.view().end_item,
    {
        self.end_item
    }

    pub fn pay_amount(&self) -> (r: Option<&str>)
        ensures
            str_of(r) == self.view().pay_amount,
    {
        borrow_text(&self.pay_amount)
    }

    pub fn pay_type(&self) -> (r: Option<PayType>)
        ensures
            r == self.view().pay_type,
    {
        self.pay_type
    }

    pub fn fee_type(&self) -> (r: Option<FeeType>)
        ensures
            r == self.view().fee_type,
    {
        self.fee_type
    }

    pub fn fee_id(&self) -> (r: Option<&str>)
        ensures
            str_of(r) == self.view().fee_id,
    {
        borrow_text(&self.fee_id)
    }

    pub fn transaction_id(&self) -> (r: Option<&str>)
        ensures
            str_of(r) == self.view().transaction_id,
    {
        borrow_text(&self.transaction_id)
    }

    pub fn summary(&self) -> (r: Option<usize>)
        ensures
            r == self.view().summary,
    {
        self.summary
    }

    pub fn set_institution(&mut self, value: &str) -> (r: &mut Self)
        ensures
            r.view() == (ParamSetView { institution: Some(value@), ..old(self).view() }),
            final(self).view() == final(r).view(),
    {
        self.institution = Some(value.to_owned());
        self
    }

    pub fn set_terminal_pwd(&mut self, value: &str) -> (r: &mut Self)
        ensures
            r.view() == (ParamSetView { terminal_pwd: Some(value@), ..old(self).view() }),
            final(self).view() == final(r).view(),
    {
        self.terminal_pwd = Some(value.to_owned());
        self
    }

    pub fn set_sip_user(&mut self, value: &str) -> (r: &mut Self)
        ensures
            r.view() == (ParamSetView { sip_user: Some(value@), ..old(self).view() }),
            final(self).view() == final(r).view(),
    {
        self.sip_user = Some(value.to_owned());
        self
    }

    pub fn set_sip_pass(&mut self, value: &str) -> (r: &mut Self)
        ensures
            r.view() == (ParamSetView { sip_pass: Some(value@), ..old(self).view() }),
            final(self).view() == final(r).view(),
    {
        self.sip_pass = Some(value.to_owned());
        self
    }

    pub fn set_location(&mut self, value: &str) -> (r: &mut Self)
        ensures
            r.view() == (ParamSetView { location: Some(value@), ..old(self).view() }),
            final(self).view() == final(r).view(),
    {
        self.location = Some(value.to_owned());
        self
    }

    pub fn set_patron_id(&mut self, value: &str) -> (r: &mut Self)
        ensures
            r.view() == (ParamSetView { patron_id: Some(value@), ..old(self).view() }),
            final(self).view() == final(r).view(),
    {
        self.patron_id = Some(value.to_owned());
        self
    }

    pub fn set_patron_pwd(&mut self, value: &str) -> (r: &mut Self)
        ensures
            r.view() == (ParamSetView { patron_pwd: Some(value@), ..old(self).view() }),
            final(self).view() == final(r).view(),
    {
        self.patron_pwd = Some(value.to_owned());
        self
    }

    pub fn set_item_id(&mut self, value: &str) -> (r: &mut Self)
        ensures
            r.view() == (ParamSetView { item_id: Some(value@), ..old(self).view() }),
            final(self).view() == final(r).view(),
    {
        self.item_id = Some(value.to_owned());
        self
    }

    pub fn set_start_item(&mut self, value: usize) -> (r: &mut Self)
        ensures
            r.view() == (ParamSetView { start_item: Some(value), ..old(self).view() }),
            final(self).view() == final(r).view(),
    {
        self.start_item = Some(value);
        self
    }

    pub fn set_end_item(&mut self, value: usize) -> (r: &mut Self)
        ensures
            r.view() == (ParamSetView { end_item: Some(value), ..old(self).view() }),
            final(self).view() == final(r).view(),
    {
        self.end_item = Some(value);
        self
    }

    pub fn set_pay_amount(&mut self, amount: &str) -> (r: &mut Self)
        ensures
            r.view() == (ParamSetView { pay_amount: Some(amount@), ..old(self).view() }),
            final(self).view() == final(r).view(),
    {
        self.pay_amount = Some(amount.to_owned());
        self
    }

    pub fn set_pay_type(&mut self, pt: PayType) -> (r: &mut Self)
        ensures
            r.view() == (ParamSetView { pay_type: Some(pt), ..old(self).view() }),
            final(self).view() == final(r).view(),
    {
        self.pay_type = Some(pt);
        self
    }

    pub fn set_fee_type(&mut self, pt: FeeType) -> (r: &mut Self)
        ensures
            r.view() == (ParamSetView { fee_type: Some(pt), ..old(self).view() }),
            final(self).view() == final(r).view(),
    {
        self.fee_type = Some(pt);
        self
    }

    pub fn set_fee_id(&mut self, id: &str) -> (r: &mut Self)
        ensures
            r.view() == (ParamSetView { fee_id: Some(id@), ..old(self).view() }),
            final(self).view() == final(r).view(),
    {
        self.fee_id = Some(id.to_owned());
        self
    }

    pub fn set_transaction_id(&mut self, id: &str) -> (r: &mut Self)
        ensures
            r.view() == (ParamSetView { transaction_id: Some(id@), ..old(self).view() }),
            final(self).view() == final(r).view(),
    {
        self.transaction_id = Some(id.to_owned());
        self
    }

    pub fn set_summary(&mut self, value: usize) -> (r: &mut Self)
        ensures
            r.view() == (ParamSetView { summary: Some(value), ..old(self).view() }),
            final(self).view() == final(r).view(),
    {
        self.summary = Some(value);
        self
    }

}

impl Default for ParamSet {
    fn default() -> (r: ParamSet)
        ensures
            r.view() == empty_params(),
    {
        ParamSet::new()
    }
}

} // verus!
