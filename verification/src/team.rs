//! Teams: what an event publishes, and what a catalog shows of it.
use vstd::prelude::*;

use crate::event::CatalogEvent;

verus! {

/// A member of a published team.
#[derive(Debug)]
pub struct TeamMember {
    pub member_key: String,
    pub display_name: String,
    pub system_prompt: Option<String>,
    pub avatar_url: Option<String>,
    pub runtime: Option<String>,
    pub model: Option<String>,
    pub provider: Option<String>,
}

/// The content of an event that publishes a team.
#[derive(Debug)]
pub struct TeamCatalogContent {
    pub name: String,
    pub description: Option<String>,
    pub instructions: Option<String>,
    pub members: Vec<TeamMember>,
}

/// An event with what was read of it: whether it is shared, and its content
/// where all of that is valid.
#[derive(Debug)]
pub struct Candidate {
    pub event: CatalogEvent,
    pub shared: bool,
    pub content: Option<TeamCatalogContent>,
}

/// The events of a list of candidates.
pub open spec fn events_of(candidates: Seq<Candidate>) -> Seq<CatalogEvent> {
    Seq::new(candidates.len(), |i: int| candidates[i].event)
}

/// A member as a catalog shows it.
#[derive(Debug)]
pub struct TeamCatalogMemberProjection {
    pub member_key: String,
    pub display_name: String,
    pub system_prompt: String,
    pub avatar_url: Option<String>,
    pub runtime: Option<String>,
    pub model: Option<String>,
    pub provider: Option<String>,
}

/// A team as a catalog shows it.
#[derive(Debug)]
pub struct TeamCatalogPublication {
    pub event_id: String,
    pub owner_pubkey: String,
    pub team_d_tag: String,
    pub name: String,
    pub description: Option<String>,
    pub instructions: Option<String>,
    pub members: Vec<TeamCatalogMemberProjection>,
}

/// What an optional text holds.
pub open spec fn text_view(text: Option<String>) -> Option<Seq<char>> {
    match text {
        Some(t) => Some(t@),
        None => None,
    }
}

/// What a catalog shows of a member.
#[verifier::ext_equal]
pub struct MemberSpec {
    pub member_key: Seq<char>,
    pub display_name: Seq<char>,
    pub system_prompt: Seq<char>,
    pub avatar_url: Option<Seq<char>>,
    pub runtime: Option<Seq<char>>,
    pub model: Option<Seq<char>>,
    pub provider: Option<Seq<char>>,
}

/// What a catalog shows of a team.
#[verifier::ext_equal]
pub struct PublicationSpec {
    pub event_id: Seq<char>,
    pub owner_pubkey: Seq<char>,
    pub team_d_tag: Seq<char>,
    pub name: Seq<char>,
    pub description: Option<Seq<char>>,
    pub instructions: Option<Seq<char>>,
    pub members: Seq<MemberSpec>,
}

impl View for TeamCatalogMemberProjection {
    type V = MemberSpec;

    open spec fn view(&self) -> MemberSpec {
        MemberSpec {
            member_key: self.member_key@,
            display_name: self.display_name@,
            system_prompt: self.system_prompt@,
            avatar_url: text_view(self.avatar_url),
            runtime: text_view(self.runtime),
            model: text_view(self.model),
            provider: text_view(self.provider),
        }
    }
}

impl View for TeamCatalogPublication {
    type V = PublicationSpec;

    open spec fn view(&self) -> PublicationSpec {
        PublicationSpec {
            event_id: self.event_id@,
            owner_pubkey: self.owner_pubkey@,
            team_d_tag: self.team_d_tag@,
            name: self.name@,
            description: text_view(self.description),
            instructions: text_view(self.instructions),
            members: Seq::new(self.members@.len(), |i: int| self.members@[i]@),
        }
    }
}

/// What each publication of a list shows.
pub open spec fn publication_views(list: Seq<TeamCatalogPublication>) -> Seq<PublicationSpec> {
    Seq::new(list.len(), |i: int| list[i]@)
}

/// A member flattened; a prompt that is absent shows as an empty text.
pub open spec fn shown_member(member: TeamMember) -> MemberSpec {
    MemberSpec {
        member_key: member.member_key@,
        display_name: member.display_name@,
        system_prompt: match member.system_prompt {
            Some(p) => p@,
            None => Seq::empty(),
        },
        avatar_url: text_view(member.avatar_url),
        runtime: text_view(member.runtime),
        model: text_view(member.model),
        provider: text_view(member.provider),
    }
}

/// A team's content under the coordinate and the event that publish it.
pub open spec fn shown_team(
    event_id: Seq<char>,
    owner_pubkey: Seq<char>,
    team_d_tag: Seq<char>,
    content: TeamCatalogContent,
) -> PublicationSpec {
    PublicationSpec {
        event_id,
        owner_pubkey,
        team_d_tag,
        name: content.name@,
        description: text_view(content.description),
        instructions: text_view(content.instructions),
        members: Seq::new(content.members@.len(), |i: int| shown_member(content.members@[i])),
    }
}

fn copied(text: &Option<String>) -> (r: Option<String>)
    ensures
        text_view(r) == text_view(*text),
        r.deep_view() == text.deep_view(),
{
    match text {
        Some(t) => Some(t.clone()),
        None => None,
    }
}

/// The publication of a team: its content, flattened.
pub fn publication(
    event_id: String,
    owner_pubkey: String,
    team_d_tag: String,
    content: &TeamCatalogContent,
) -> (r: TeamCatalogPublication)
    ensures
        r@ == shown_team(event_id@, owner_pubkey@, team_d_tag@, *content),
        r.event_id@ == event_id@,
        r.owner_pubkey@ == owner_pubkey@,
        r.team_d_tag@ == team_d_tag@,
        r.name@ == content.name@,
        r.description.deep_view() == content.description.deep_view(),
        r.instructions.deep_view() == content.instructions.deep_view(),
        r.members@.len() == content.members@.len(),
        forall|i: int|
            0 <= i < content.members@.len() ==> {
                let shown = #[trigger] r.members@[i];
                let member = content.members@[i];
                &&& shown.member_key@ == member.member_key@
                &&& shown.display_name@ == member.display_name@
                &&& member.system_prompt is Some ==> shown.system_prompt@
                    == member.system_prompt->0@
                &&& member.system_prompt is None ==> shown.system_prompt@.len() == 0
                &&& shown.avatar_url.deep_view() == member.avatar_url.deep_view()
                &&& shown.runtime.deep_view() == member.runtime.deep_view()
                &&& shown.model.deep_view() == member.model.deep_view()
                &&& shown.provider.deep_view() == member.provider.deep_view()
            },
{
    let mut members: Vec<TeamCatalogMemberProjection> = Vec::new();
    let mut i: usize = 0;
    while i < content.members.len()
        invariant
            i <= content.members@.len(),
            members@.len() == i,
            forall|k: int|
                0 <= k < i ==> (#[trigger] members@[k])@ == shown_member(content.members@[k]),
            forall|k: int|
                0 <= k < i ==> {
                    let shown = #[trigger] members@[k];
                    let member = content.members@[k];
                    &&& shown.member_key@ == member.member_key@
                    &&& shown.display_name@ == member.display_name@
                    &&& member.system_prompt is Some ==> shown.system_prompt@
                        == member.system_prompt->0@
                    &&& member.system_prompt is None ==> shown.system_prompt@.len() == 0
                    &&& shown.avatar_url.deep_view() == member.avatar_url.deep_view()
                    &&& shown.runtime.deep_view() == member.runtime.deep_view()
                    &&& shown.model.deep_view() == member.model.deep_view()
                    &&& shown.provider.deep_view() == member.provider.deep_view()
                },
        decreases content.members@.len() - i,
    {
        let member = &content.members[i];
        let system_prompt: String = match &member.system_prompt {
            Some(p) => p.clone(),
            None => String::new(),
        };
        members.push(
            TeamCatalogMemberProjection {
                member_key: member.member_key.clone(),
                display_name: member.display_name.clone(),
                system_prompt,
                avatar_url: copied(&member.avatar_url),
                runtime: copied(&member.runtime),
                model: copied(&member.model),
                provider: copied(&member.provider),
            },
        );
        i = i + 1;
    }
    let r = TeamCatalogPublication {
        event_id,
        owner_pubkey,
        team_d_tag,
        name: content.name.clone(),
        description: copied(&content.description),
        instructions: copied(&content.instructions),
        members,
    };
    assert(r@.members =~= shown_team(event_id@, owner_pubkey@, team_d_tag@, *content).members);
    r
}

/// Nothing of a team is lost or mixed up on its way into a catalog: each field
/// shows what the same field held, member by member.
pub proof fn a_team_shows_field_by_field(
    event_id: Seq<char>,
    owner_pubkey: Seq<char>,
    team_d_tag: Seq<char>,
    content: TeamCatalogContent,
)
    ensures
        ({
            let p = shown_team(event_id, owner_pubkey, team_d_tag, content);
            &&& p.event_id == event_id
            &&& p.owner_pubkey == owner_pubkey
            &&& p.team_d_tag == team_d_tag
            &&& p.name == content.name@
            &&& p.description == content.description.deep_view()
            &&& p.instructions == content.instructions.deep_view()
            &&& p.members.len() == content.members@.len()
            &&& forall|i: int|
                0 <= i < content.members@.len() ==> {
                    let shown = #[trigger] p.members[i];
                    let member = content.members@[i];
                    &&& shown.member_key == member.member_key@
                    &&& shown.display_name == member.display_name@
                    &&& member.system_prompt is Some ==> shown.system_prompt
                        == member.system_prompt->0@
                    &&& member.system_prompt is None ==> shown.system_prompt.len() == 0
                    &&& shown.avatar_url == member.avatar_url.deep_view()
                    &&& shown.runtime == member.runtime.deep_view()
                    &&& shown.model == member.model.deep_view()
                    &&& shown.provider == member.provider.deep_view()
                }
        }),
{
}

/// A publication is seen as its fields are, and so is each of its members.
pub proof fn a_publication_is_seen_as_it_is(p: TeamCatalogPublication)
    ensures
        p@.event_id == p.event_id@,
        p@.owner_pubkey == p.owner_pubkey@,
        p@.team_d_tag == p.team_d_tag@,
        p@.name == p.name@,
        p@.description == p.description.deep_view(),
        p@.instructions == p.instructions.deep_view(),
        p@.members.len() == p.members@.len(),
        forall|i: int|
            0 <= i < p.members@.len() ==> {
                let seen = #[trigger] p@.members[i];
                let member = p.members@[i];
                &&& seen.member_key == member.member_key@
                &&& seen.display_name == member.display_name@
                &&& seen.system_prompt == member.system_prompt@
                &&& seen.avatar_url == member.avatar_url.deep_view()
                &&& seen.runtime == member.runtime.deep_view()
                &&& seen.model == member.model.deep_view()
                &&& seen.provider == member.provider.deep_view()
            },
{
}

} // verus!
